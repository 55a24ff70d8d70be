//! Character-level helpers on strings, with their meaning stated over `Seq<char>`.
use vstd::prelude::*;

verus! {

broadcast use vstd::string::group_string_axioms;

/// Unicode `White_Space`: the characters for which `char::is_whitespace` holds.
pub open spec fn is_whitespace(c: char) -> bool {
    let n = c as u32;
    ||| 0x09 <= n <= 0x0D
    ||| n == 0x20
    ||| n == 0x85
    ||| n == 0xA0
    ||| n == 0x1680
    ||| 0x2000 <= n <= 0x200A
    ||| n == 0x2028
    ||| n == 0x2029
    ||| n == 0x202F
    ||| n == 0x205F
    ||| n == 0x3000
}

/// `s` without its leading whitespace.
pub open spec fn trim_start_seq(s: Seq<char>) -> Seq<char>
    decreases s.len(),
{
    if s.len() > 0 && is_whitespace(s[0]) {
        trim_start_seq(s.drop_first())
    } else {
        s
    }
}

/// `s` without its trailing whitespace.
pub open spec fn trim_end_seq(s: Seq<char>) -> Seq<char>
    decreases s.len(),
{
    if s.len() > 0 && is_whitespace(s.last()) {
        trim_end_seq(s.drop_last())
    } else {
        s
    }
}

/// `s` without leading and trailing whitespace.
pub open spec fn trim_seq(s: Seq<char>) -> Seq<char> {
    trim_end_seq(trim_start_seq(s))
}

/// `suffix` is the tail of `s`.
pub open spec fn has_suffix(s: Seq<char>, suffix: Seq<char>) -> bool {
    &&& suffix.len() <= s.len()
    &&& s.subrange(s.len() - suffix.len(), s.len() as int) == suffix
}

proof fn lemma_trim_start_shape(s: Seq<char>)
    ensures
        exists|i: int| 0 <= i <= s.len() && trim_start_seq(s) == #[trigger] s.subrange(i, s.len() as int),
        trim_start_seq(s).len() > 0 ==> !is_whitespace(trim_start_seq(s)[0]),
        trim_start_seq(trim_start_seq(s)) == trim_start_seq(s),
    decreases s.len(),
{
    if s.len() > 0 && is_whitespace(s[0]) {
        lemma_trim_start_shape(s.drop_first());
        let i = choose|i: int| 0 <= i <= s.drop_first().len() && trim_start_seq(s.drop_first()) == #[trigger] s.drop_first().subrange(i, s.drop_first().len() as int);
        assert(s.drop_first().subrange(i, s.drop_first().len() as int) =~= s.subrange(i + 1, s.len() as int));
    } else {
        assert(s.subrange(0, s.len() as int) =~= s);
    }
}

proof fn lemma_trim_end_shape(s: Seq<char>)
    ensures
        trim_end_seq(s).len() <= s.len(),
        trim_end_seq(s) == s.subrange(0, trim_end_seq(s).len() as int),
        trim_end_seq(s).len() > 0 ==> !is_whitespace(trim_end_seq(s).last()),
        trim_end_seq(trim_end_seq(s)) == trim_end_seq(s),
    decreases s.len(),
{
    if s.len() > 0 && is_whitespace(s.last()) {
        lemma_trim_end_shape(s.drop_last());
        assert(s.drop_last().subrange(0, trim_end_seq(s).len() as int) =~= s.subrange(0, trim_end_seq(s).len() as int));
    } else {
        assert(s.subrange(0, s.len() as int) =~= s);
    }
}

/// Trimmed text neither starts nor ends with whitespace, and trimming it
/// again changes nothing.
pub proof fn lemma_trim_clean(s: Seq<char>)
    ensures
        trim_seq(s).len() > 0 ==> !is_whitespace(trim_seq(s)[0]) && !is_whitespace(
            trim_seq(s).last(),
        ),
        trim_seq(trim_seq(s)) == trim_seq(s),
{
    let a = trim_start_seq(s);
    let t = trim_end_seq(a);
    lemma_trim_start_shape(s);
    lemma_trim_end_shape(a);
    if t.len() > 0 {
        assert(t[0] == a[0]);
        assert(trim_start_seq(t) == t);
    } else {
        assert(trim_start_seq(t) == t);
    }
}

/// Whether `c` is Unicode whitespace.
pub fn is_whitespace_char(c: char) -> (r: bool)
    ensures
        r == is_whitespace(c),
{
    let n = c as u32;
    (0x09 <= n && n <= 0x0D) || n == 0x20 || n == 0x85 || n == 0xA0 || n == 0x1680 || (0x2000
        <= n && n <= 0x200A) || n == 0x2028 || n == 0x2029 || n == 0x202F || n == 0x205F || n
        == 0x3000
}

/// The characters of `s`, in order.
pub fn chars_of(s: &str) -> (v: Vec<char>)
    ensures
        v@ == s@,
{
    let mut v: Vec<char> = Vec::new();
    for c in it: s.chars()
        invariant
            v@ == it.seq().take(it.index()),
    {
        v.push(c);
    }
    v
}

/// The index of the first character of `s` at `start` or later that is not
/// whitespace (or `s.len()`), and `trim_start_seq` does not see the difference.
fn skip_leading(v: &Vec<char>) -> (start: usize)
    ensures
        start <= v@.len(),
        trim_start_seq(v@) == v@.subrange(start as int, v@.len() as int),
{
    let ghost s = v@;
    let n = v.len();
    let mut start: usize = 0;
    assert(s.subrange(0, n as int) =~= s);
    while start < n && is_whitespace_char(v[start])
        invariant
            n == s.len(),
            v@ == s,
            start <= n,
            trim_start_seq(s) == trim_start_seq(s.subrange(start as int, n as int)),
        decreases n - start,
    {
        assert(s.subrange(start as int, n as int).drop_first() =~= s.subrange(
            start + 1,
            n as int,
        ));
        start = start + 1;
    }
    start
}

/// The end of the part of `s.subrange(start, len)` that `trim_end_seq` keeps.
fn skip_trailing(v: &Vec<char>, start: usize) -> (end: usize)
    requires
        start <= v@.len(),
    ensures
        start <= end <= v@.len(),
        trim_end_seq(v@.subrange(start as int, v@.len() as int)) == v@.subrange(
            start as int,
            end as int,
        ),
{
    let ghost s = v@;
    let n = v.len();
    let mut end: usize = n;
    while end > start && is_whitespace_char(v[end - 1])
        invariant
            n == s.len(),
            v@ == s,
            start <= end <= n,
            trim_end_seq(s.subrange(start as int, n as int)) == trim_end_seq(
                s.subrange(start as int, end as int),
            ),
        decreases end,
    {
        assert(s.subrange(start as int, end as int).drop_last() =~= s.subrange(
            start as int,
            end - 1,
        ));
        end = end - 1;
    }
    end
}

/// `s` with leading and trailing whitespace removed, as `str::trim` does.
pub fn trim(s: &str) -> (r: String)
    ensures
        r@ == trim_seq(s@),
{
    let v = chars_of(s);
    let start = skip_leading(&v);
    let end = skip_trailing(&v, start);
    String::from_str(s.substring_char(start, end))
}

/// `s` with trailing whitespace removed, as `str::trim_end` does.
pub fn trim_end(s: &str) -> (r: String)
    ensures
        r@ == trim_end_seq(s@),
{
    let v = chars_of(s);
    let end = skip_trailing(&v, 0);
    assert(s@.subrange(0, s@.len() as int) =~= s@);
    String::from_str(s.substring_char(0, end))
}

/// Whether `s` ends with `suffix`, as `str::ends_with` does for a string pattern.
pub fn ends_with(s: &str, suffix: &str) -> (r: bool)
    ensures
        r == has_suffix(s@, suffix@),
{
    let a = chars_of(s);
    let b = chars_of(suffix);
    if b.len() > a.len() {
        return false;
    }
    let off = a.len() - b.len();
    let mut i: usize = 0;
    while i < b.len()
        invariant
            a@ == s@,
            b@ == suffix@,
            off == a.len() - b.len(),
            i <= b.len(),
            forall|j: int| 0 <= j < i ==> a@[off + j] == b@[j],
        decreases b.len() - i,
    {
        if a[off + i] != b[i] {
            assert(s@.subrange(off as int, s@.len() as int)[i as int] != suffix@[i as int]);
            return false;
        }
        i = i + 1;
    }
    assert(s@.subrange(off as int, s@.len() as int) =~= suffix@);
    true
}

/// Whether `s` holds exactly the characters of `t`.
pub fn same_text(s: &str, t: &str) -> (r: bool)
    ensures
        r == (s@ == t@),
{
    String::from_str(s) == String::from_str(t)
}

/// The concatenation of the parts, in order.
pub fn join3(a: &str, b: &str, c: &str) -> (r: String)
    ensures
        r@ == a@ + b@ + c@,
{
    let mut r = String::from_str(a);
    r.append(b);
    r.append(c);
    r
}

} // verus!
