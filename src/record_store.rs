//! Append-only storage for per-height records of three kinds. Appends stay
//! pending until `commit` seals them for every kind at once; a crash drops
//! what is pending. Receipts never stand at a height that lacks a header or
//! a body.
use vstd::prelude::*;

verus! {

/// The kinds of per-height record.
#[derive(Clone, Copy, Debug, PartialEq, Eq, Structural)]
pub enum RecordKind {
    Headers,
    Bodies,
    Receipts,
}

/// Why a record-store operation was refused.
#[derive(Clone, Copy, Debug, PartialEq, Eq, Structural)]
pub enum StoreError {
    /// The height is not the next one of that kind.
    OutOfOrderWrite { height: u64 },
    /// A receipt for a height that has no header or no body.
    MissingBlockRecords { height: u64 },
}

/// Receipts stand only at heights that hold a header and a body.
pub open spec fn consistent(headers: Seq<u64>, bodies: Seq<u64>, receipts: Seq<u64>) -> bool {
    receipts.len() <= headers.len() && receipts.len() <= bodies.len()
}

/// The first `n` elements of `s`, or all of `s` where it is shorter.
pub open spec fn cut(s: Seq<u64>, n: nat) -> Seq<u64> {
    if n < s.len() {
        s.take(n as int)
    } else {
        s
    }
}

/// A copy of `v`.
fn copy_records(v: &Vec<u64>) -> (r: Vec<u64>)
    ensures
        r@ == v@,
{
    let mut r: Vec<u64> = Vec::new();
    let mut i: usize = 0;
    while i < v.len()
        invariant
            i <= v@.len(),
            r@ == v@.take(i as int),
        decreases v.len() - i,
    {
        r.push(v[i]);
        i = i + 1;
        assert(r@ =~= v@.take(i as int));
    }
    assert(v@.take(i as int) =~= v@);
    r
}

/// Drops the elements of `v` from index `n` on.
fn cut_records(v: &mut Vec<u64>, n: u64)
    ensures
        final(v)@ == cut(old(v)@, n as nat),
{
    if (n as u128) < (v.len() as u128) {
        v.truncate(n as usize);
    }
}

/// The record store: the live records of each kind, the record at height
/// `h` at index `h`, and the sealed copy as of the last commit.
pub struct RecordStore {
    headers: Vec<u64>,
    bodies: Vec<u64>,
    receipts: Vec<u64>,
    sealed_headers: Vec<u64>,
    sealed_bodies: Vec<u64>,
    sealed_receipts: Vec<u64>,
}

impl RecordStore {
    /// The live records of `kind`, pending appends included.
    pub closed spec fn records(&self, kind: RecordKind) -> Seq<u64> {
        match kind {
            RecordKind::Headers => self.headers@,
            RecordKind::Bodies => self.bodies@,
            RecordKind::Receipts => self.receipts@,
        }
    }

    /// The records of `kind` as of the last commit.
    pub closed spec fn sealed(&self, kind: RecordKind) -> Seq<u64> {
        match kind {
            RecordKind::Headers => self.sealed_headers@,
            RecordKind::Bodies => self.sealed_bodies@,
            RecordKind::Receipts => self.sealed_receipts@,
        }
    }

    /// Receipts stand only beside headers and bodies, live and sealed.
    pub open spec fn wf(&self) -> bool {
        &&& consistent(
            self.records(RecordKind::Headers),
            self.records(RecordKind::Bodies),
            self.records(RecordKind::Receipts),
        )
        &&& consistent(
            self.sealed(RecordKind::Headers),
            self.sealed(RecordKind::Bodies),
            self.sealed(RecordKind::Receipts),
        )
    }

    /// Whether a record of `kind` stands at `height`.
    pub open spec fn has(&self, kind: RecordKind, height: int) -> bool {
        0 <= height < self.records(kind).len()
    }

    /// A well-formed store holds a receipt only at a height that also holds
    /// a header and a body.
    pub proof fn lemma_receipts_have_blocks(&self, height: int)
        requires
            self.wf(),
            self.has(RecordKind::Receipts, height),
        ensures
            self.has(RecordKind::Headers, height),
            self.has(RecordKind::Bodies, height),
    {
    }

    /// An empty store.
    pub fn new() -> (r: RecordStore)
        ensures
            r.wf(),
            forall|k: RecordKind| r.records(k).len() == 0 && r.sealed(k).len() == 0,
    {
        RecordStore {
            headers: Vec::new(),
            bodies: Vec::new(),
            receipts: Vec::new(),
            sealed_headers: Vec::new(),
            sealed_bodies: Vec::new(),
            sealed_receipts: Vec::new(),
        }
    }

    /// The number of live records of `kind`: the next height to append.
    pub fn next_height(&self, kind: RecordKind) -> (r: usize)
        ensures
            r == self.records(kind).len(),
    {
        match kind {
            RecordKind::Headers => self.headers.len(),
            RecordKind::Bodies => self.bodies.len(),
            RecordKind::Receipts => self.receipts.len(),
        }
    }

    /// Appends `record` of `kind` at `height`, pending until the next
    /// commit. The height must be the next one of that kind, and a receipt
    /// needs the header and the body of its height.
    pub fn append(&mut self, kind: RecordKind, height: u64, record: u64) -> (r: Result<(), StoreError>)
        requires
            old(self).wf(),
        ensures
            final(self).wf(),
            forall|k: RecordKind| #[trigger] final(self).sealed(k) == old(self).sealed(k),
            height != old(self).records(kind).len() ==> r == Err::<(), StoreError>(
                StoreError::OutOfOrderWrite { height },
            ),
            height == old(self).records(kind).len() && kind == RecordKind::Receipts && !(old(
                self,
            ).has(RecordKind::Headers, height as int) && old(self).has(RecordKind::Bodies, height as int))
                ==> r == Err::<(), StoreError>(StoreError::MissingBlockRecords { height }),
            r.is_ok() == (height == old(self).records(kind).len() && (kind == RecordKind::Receipts ==> (old(
                self,
            ).has(RecordKind::Headers, height as int) && old(self).has(RecordKind::Bodies, height as int)))),
            r.is_ok() ==> final(self).records(kind) == old(self).records(kind).push(record)
                && forall|k: RecordKind| k != kind ==> #[trigger] final(self).records(k) == old(self).records(k),
            r.is_err() ==> forall|k: RecordKind| #[trigger] final(self).records(k) == old(self).records(k),
    {
        let next = self.next_height(kind);
        if height as u128 != next as u128 {
            return Err(StoreError::OutOfOrderWrite { height });
        }
        match kind {
            RecordKind::Headers => self.headers.push(record),
            RecordKind::Bodies => self.bodies.push(record),
            RecordKind::Receipts => {
                if (height as u128) >= (self.headers.len() as u128) || (height as u128) >= (
                self.bodies.len() as u128) {
                    return Err(StoreError::MissingBlockRecords { height });
                }
                self.receipts.push(record);
            },
        }
        Ok(())
    }

    /// The live record of `kind` at `height`, if there is one.
    pub fn read(&self, kind: RecordKind, height: u64) -> (r: Option<u64>)
        ensures
            r == (if self.has(kind, height as int) {
                Some(self.records(kind)[height as int])
            } else {
                None
            }),
    {
        let v = match kind {
            RecordKind::Headers => &self.headers,
            RecordKind::Bodies => &self.bodies,
            RecordKind::Receipts => &self.receipts,
        };
        if (height as u128) < (v.len() as u128) {
            Some(v[height as usize])
        } else {
            None
        }
    }

    /// The live records of `kind` at heights `start .. end` that exist.
    pub fn read_range(&self, kind: RecordKind, start: u64, end: u64) -> (r: Vec<u64>)
        ensures
            ({
                let s = self.records(kind);
                let hi = if end as int <= s.len() { end as int } else { s.len() as int };
                r@ == (if start as int <= hi { s.subrange(start as int, hi) } else { Seq::empty() })
            }),
    {
        let v = match kind {
            RecordKind::Headers => &self.headers,
            RecordKind::Bodies => &self.bodies,
            RecordKind::Receipts => &self.receipts,
        };
        let hi: usize = if (end as u128) <= (v.len() as u128) { end as usize } else { v.len() };
        let mut r: Vec<u64> = Vec::new();
        if (start as u128) > (hi as u128) {
            return r;
        }
        let mut i: usize = start as usize;
        while i < hi
            invariant
                start <= i <= hi <= v@.len(),
                r@ == v@.subrange(start as int, i as int),
            decreases hi - i,
        {
            r.push(v[i]);
            i = i + 1;
            assert(r@ =~= v@.subrange(start as int, i as int));
        }
        r
    }

    /// Seals every pending append, of all kinds at once.
    pub fn commit(&mut self)
        requires
            old(self).wf(),
        ensures
            final(self).wf(),
            forall|k: RecordKind| #[trigger] final(self).records(k) == old(self).records(k),
            forall|k: RecordKind| #[trigger] final(self).sealed(k) == old(self).records(k),
    {
        self.sealed_headers = copy_records(&self.headers);
        self.sealed_bodies = copy_records(&self.bodies);
        self.sealed_receipts = copy_records(&self.receipts);
    }

    /// What survives a crash: the live records fall back to the sealed ones.
    pub fn recover(&mut self)
        requires
            old(self).wf(),
        ensures
            final(self).wf(),
            forall|k: RecordKind| #[trigger] final(self).records(k) == old(self).sealed(k),
            forall|k: RecordKind| #[trigger] final(self).sealed(k) == old(self).sealed(k),
    {
        self.headers = copy_records(&self.sealed_headers);
        self.bodies = copy_records(&self.sealed_bodies);
        self.receipts = copy_records(&self.sealed_receipts);
    }

    /// Removes the live records of `kind` at `height` and above. Removing
    /// headers or bodies removes the receipts of those heights too.
    pub fn truncate_from(&mut self, kind: RecordKind, height: u64)
        requires
            old(self).wf(),
        ensures
            final(self).wf(),
            forall|k: RecordKind| #[trigger] final(self).sealed(k) == old(self).sealed(k),
            final(self).records(kind) == cut(old(self).records(kind), height as nat),
            final(self).records(RecordKind::Receipts) == cut(old(self).records(RecordKind::Receipts), height as nat),
            forall|k: RecordKind|
                k != kind && k != RecordKind::Receipts ==> #[trigger] final(self).records(k) == old(self).records(k),
    {
        match kind {
            RecordKind::Headers => cut_records(&mut self.headers, height),
            RecordKind::Bodies => cut_records(&mut self.bodies, height),
            RecordKind::Receipts => {},
        }
        cut_records(&mut self.receipts, height);
    }
}

} // verus!
