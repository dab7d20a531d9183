//! Which fixture files are skipped, decided on their paths. Paths use `/`
//! as separator.
use vstd::prelude::*;
use vstd::string::*;

verus! {

/// The separator between path components.
pub const SEPARATOR: char = '/';

/// What follows the last separator of `p`.
pub open spec fn last_component(p: Seq<char>) -> Seq<char>
    decreases p.len(),
{
    if p.len() == 0 || p.last() == SEPARATOR {
        Seq::empty()
    } else {
        last_component(p.drop_last()).push(p.last())
    }
}

/// The final component of a path, as the standard library's path
/// components give it: separators at the end and `.` components are
/// ignored, and a path that ends in `..`, or has no component left, has no
/// file name.
pub open spec fn file_name(p: Seq<char>) -> Option<Seq<char>>
    decreases p.len(),
{
    if p.len() == 0 {
        None
    } else if p.last() == SEPARATOR {
        file_name(p.drop_last())
    } else {
        let c = last_component(p);
        if c == seq!['.'] {
            file_name(p.drop_last())
        } else if c == seq!['.', '.'] {
            None
        } else {
            Some(c)
        }
    }
}

/// `needle` occurs in `hay` as a run of consecutive characters.
pub open spec fn contains(hay: Seq<char>, needle: Seq<char>) -> bool {
    exists|i: int| 0 <= i && i + needle.len() <= hay.len() && #[trigger] hay.subrange(i, i + needle.len()) == needle
}

/// The parts joined with the separator between each two.
pub open spec fn joined(parts: Seq<Seq<char>>) -> Seq<char>
    decreases parts.len(),
{
    if parts.len() == 0 {
        Seq::empty()
    } else if parts.len() == 1 {
        parts[0]
    } else {
        joined(parts.drop_last()).push(SEPARATOR) + parts.last()
    }
}

/// The characters of each string of `parts`.
pub open spec fn views(parts: Seq<&str>) -> Seq<Seq<char>> {
    parts.map_values(|s: &str| s@)
}

/// File names of fixtures that are not run: edge cases that cannot occur
/// on mainnet, exceptions that are not matched, and long-running cases.
pub open spec fn skipped_name(n: Seq<char>) -> bool {
    n == "ValueOverflow.json"@ || n == "ValueOverflowParis.json"@ || n == "typeTwoBerlin.json"@
        || n == "CreateTransactionHighNonce.json"@ || n == "HighGasPrice.json"@
        || n == "HighGasPriceParis.json"@ || n == "accessListExample.json"@ || n == "basefeeExample.json"@
        || n == "eip1559.json"@ || n == "mergeTest.json"@ || n == "loopExp.json"@
        || n == "Call50000_sha256.json"@ || n == "static_Call50000_sha256.json"@ || n == "loopMul.json"@
        || n == "CALLBlake2f_MaxRounds.json"@ || n == "shiftCombinations.json"@
        || n == "RevertInCreateInInit_Paris.json"@ || n == "RevertInCreateInInit.json"@
        || n == "dynamicAccountOverwriteEmpty.json"@ || n == "dynamicAccountOverwriteEmpty_Paris.json"@
        || n == "RevertInCreateInInitCreate2Paris.json"@ || n == "create2collisionStorage.json"@
        || n == "RevertInCreateInInitCreate2.json"@ || n == "create2collisionStorageParis.json"@
        || n == "InitCollision.json"@ || n == "InitCollisionParis.json"@
}

/// The characters of `s`.
fn chars_of(s: &str) -> (r: Vec<char>)
    ensures
        r@ == s@,
{
    let n = s.unicode_len();
    let mut r: Vec<char> = Vec::new();
    let mut i: usize = 0;
    while i < n
        invariant
            n == s@.len(),
            i <= n,
            r@ == s@.take(i as int),
        decreases n - i,
    {
        r.push(s.get_char(i));
        i = i + 1;
        assert(r@ =~= s@.take(i as int));
    }
    assert(s@.take(i as int) =~= s@);
    r
}

/// Whether `a` holds exactly the characters of `b`.
fn same_chars(a: &Vec<char>, b: &str) -> (r: bool)
    ensures
        r == (a@ == b@),
{
    let n = b.unicode_len();
    if a.len() != n {
        return false;
    }
    let mut i: usize = 0;
    while i < n
        invariant
            n == b@.len(),
            n == a@.len(),
            i <= n,
            a@.take(i as int) == b@.take(i as int),
        decreases n - i,
    {
        if a[i] != b.get_char(i) {
            assert(a@[i as int] != b@[i as int]);
            return false;
        }
        i = i + 1;
        assert(a@.take(i as int) =~= b@.take(i as int));
    }
    assert(a@ =~= a@.take(n as int));
    assert(b@ =~= b@.take(n as int));
    true
}

/// Whether `n` is the name of a skipped fixture.
fn is_skipped_name(n: &Vec<char>) -> (r: bool)
    ensures
        r == skipped_name(n@),
{
    same_chars(n, "ValueOverflow.json") || same_chars(n, "ValueOverflowParis.json") || same_chars(
        n,
        "typeTwoBerlin.json",
    ) || same_chars(n, "CreateTransactionHighNonce.json") || same_chars(n, "HighGasPrice.json")
        || same_chars(n, "HighGasPriceParis.json") || same_chars(n, "accessListExample.json")
        || same_chars(n, "basefeeExample.json") || same_chars(n, "eip1559.json") || same_chars(
        n,
        "mergeTest.json",
    ) || same_chars(n, "loopExp.json") || same_chars(n, "Call50000_sha256.json") || same_chars(
        n,
        "static_Call50000_sha256.json",
    ) || same_chars(n, "loopMul.json") || same_chars(n, "CALLBlake2f_MaxRounds.json") || same_chars(
        n,
        "shiftCombinations.json",
    ) || same_chars(n, "RevertInCreateInInit_Paris.json") || same_chars(n, "RevertInCreateInInit.json")
        || same_chars(n, "dynamicAccountOverwriteEmpty.json") || same_chars(
        n,
        "dynamicAccountOverwriteEmpty_Paris.json",
    ) || same_chars(n, "RevertInCreateInInitCreate2Paris.json") || same_chars(
        n,
        "create2collisionStorage.json",
    ) || same_chars(n, "RevertInCreateInInitCreate2.json") || same_chars(
        n,
        "create2collisionStorageParis.json",
    ) || same_chars(n, "InitCollision.json") || same_chars(n, "InitCollisionParis.json")
}

/// The final component of the path `p`, if it has one.
pub fn file_name_of(p: &Vec<char>) -> (r: Option<Vec<char>>)
    ensures
        r matches Some(v) ==> file_name(p@) == Some(v@),
        r is None ==> file_name(p@) is None,
{
    let mut end: usize = p.len();
    assert(p@.take(end as int) =~= p@);
    loop
        invariant
            end <= p@.len(),
            file_name(p@.take(end as int)) == file_name(p@),
        decreases end,
    {
        let ghost q = p@.take(end as int);
        if end == 0 {
            return None;
        }
        assert(q.drop_last() =~= p@.take(end - 1));
        assert(q.last() == p@[end - 1]);
        if p[end - 1] == SEPARATOR {
            end = end - 1;
        } else {
            let mut start: usize = end;
            assert(q.take(start as int) =~= q);
            assert(q.subrange(start as int, end as int) =~= Seq::<char>::empty());
            while start > 0 && p[start - 1] != SEPARATOR
                invariant
                    start <= end <= p@.len(),
                    q == p@.take(end as int),
                    last_component(q) == last_component(q.take(start as int)) + q.subrange(
                        start as int,
                        end as int,
                    ),
                decreases start,
            {
                assert(q.take(start as int).drop_last() =~= q.take(start - 1));
                assert(q.subrange(start - 1, end as int) =~= seq![q[start - 1]] + q.subrange(
                    start as int,
                    end as int,
                ));
                start = start - 1;
            }
            assert(last_component(q.take(start as int)) =~= Seq::<char>::empty());
            let ghost c = q.subrange(start as int, end as int);
            assert(last_component(q) =~= c);
            assert(c.len() == end - start);
            assert(c.len() >= 1);
            assert(forall|i: int| 0 <= i < c.len() ==> c[i] == p@[start + i]);
            if end - start == 1 && p[start] == '.' {
                assert(c =~= seq!['.']);
                end = end - 1;
            } else if end - start == 2 && p[start] == '.' && p[start + 1] == '.' {
                assert(c =~= seq!['.', '.']);
                return None;
            } else {
                assert(c != seq!['.']) by {
                    if c.len() == 1 {
                        assert(c[0] == p@[start as int]);
                    }
                };
                assert(c != seq!['.', '.']) by {
                    if c.len() == 2 {
                        assert(c[0] == p@[start as int]);
                        assert(c[1] == p@[start + 1]);
                    }
                };
                let mut r: Vec<char> = Vec::new();
                let mut i: usize = start;
                while i < end
                    invariant
                        start <= i <= end <= p@.len(),
                        r@ == p@.subrange(start as int, i as int),
                    decreases end - i,
                {
                    r.push(p[i]);
                    i = i + 1;
                    assert(r@ =~= p@.subrange(start as int, i as int));
                }
                assert(c =~= r@);
                return Some(r);
            }
        }
    }
}

/// Whether `needle` occurs in `hay`.
fn contains_chars(hay: &Vec<char>, needle: &Vec<char>) -> (r: bool)
    ensures
        r == contains(hay@, needle@),
{
    if needle.len() > hay.len() {
        return false;
    }
    let hn = hay.len();
    let last = hn - needle.len();
    let mut i: usize = 0;
    loop
        invariant
            hn == hay@.len(),
            needle@.len() <= hn,
            last == hay@.len() - needle@.len(),
            i <= last,
            forall|j: int| 0 <= j < i ==> #[trigger] hay@.subrange(j, j + needle@.len()) != needle@,
        decreases last - i,
    {
        let mut k: usize = 0;
        while k < needle.len() && hay[i + k] == needle[k]
            invariant
                hn == hay@.len(),
                i <= last,
                last == hay@.len() - needle@.len(),
                k <= needle@.len(),
                hay@.subrange(i as int, i + k) == needle@.take(k as int),
            decreases needle.len() - k,
        {
            k = k + 1;
            assert(hay@.subrange(i as int, i + k) =~= needle@.take(k as int));
        }
        if k == needle.len() {
            assert(needle@.take(k as int) =~= needle@);
            return true;
        }
        assert(hay@.subrange(i as int, i + needle@.len())[k as int] != needle@[k as int]);
        if i == last {
            return false;
        }
        i = i + 1;
    }
}

/// Whether the parts of `rhs`, joined by the separator, occur in the path.
pub fn path_contains(path_str: &str, rhs: &[&str]) -> (r: bool)
    ensures
        r == contains(path_str@, joined(views(rhs@))),
{
    let mut pattern: Vec<char> = Vec::new();
    let mut i: usize = 0;
    while i < rhs.len()
        invariant
            i <= rhs@.len(),
            pattern@ == joined(views(rhs@.take(i as int))),
        decreases rhs.len() - i,
    {
        let part = chars_of(rhs[i]);
        let ghost before = pattern@;
        if i > 0 {
            pattern.push(SEPARATOR);
        }
        let mut j: usize = 0;
        let ghost mid = pattern@;
        while j < part.len()
            invariant
                j <= part@.len(),
                pattern@ == mid + part@.take(j as int),
            decreases part.len() - j,
        {
            pattern.push(part[j]);
            j = j + 1;
            assert(pattern@ =~= mid + part@.take(j as int));
        }
        assert(part@.take(j as int) =~= part@);
        proof {
            let vs = views(rhs@.take(i + 1));
            assert(vs.drop_last() =~= views(rhs@.take(i as int)));
            assert(vs.last() == rhs@[i as int]@);
            if i == 0 {
                assert(mid =~= Seq::<char>::empty());
                assert(pattern@ =~= vs[0]);
            }
        }
        i = i + 1;
    }
    assert(rhs@.take(i as int) =~= rhs@);
    let hay = chars_of(path_str);
    contains_chars(&hay, &pattern)
}

/// Whether the fixture at `path` is skipped: its file name is listed, or
/// it lies under `EIPTests/stEOF`, whose fixtures are outdated. The path
/// must end in a file name.
pub fn should_skip(path: &str) -> (r: bool)
    requires
        file_name(path@) is Some,
    ensures
        r == (skipped_name(file_name(path@).unwrap()) || contains(
            path@,
            joined(views(seq!["EIPTests", "stEOF"])),
        )),
{
    let chars = chars_of(path);
    let listed = match file_name_of(&chars) {
        Some(name) => is_skipped_name(&name),
        None => false,
    };
    let parts: Vec<&str> = vec!["EIPTests", "stEOF"];
    assert(parts@ =~= seq!["EIPTests", "stEOF"]);
    let under = path_contains(path, parts.as_slice());
    listed || under
}

} // verus!
