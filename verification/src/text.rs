//! Character-sequence specifications and the small string operations of
//! std and `validated_struct` that the library builds on.
use vstd::prelude::*;
use vstd::string::StrSliceExecFns;

verus! {

/// `a` is a prefix of `b`.
pub open spec fn is_prefix(a: Seq<char>, b: Seq<char>) -> bool {
    a.len() <= b.len() && b.take(a.len() as int) == a
}

/// Lexicographic order on character sequences; for UTF-8 strings this is
/// the byte order that `str`'s `<` uses.
pub open spec fn seq_less(a: Seq<char>, b: Seq<char>) -> bool
    decreases a.len(),
{
    if a.len() == 0 {
        b.len() > 0
    } else if b.len() == 0 {
        false
    } else if a[0] != b[0] {
        (a[0] as int) < (b[0] as int)
    } else {
        seq_less(a.drop_first(), b.drop_first())
    }
}

/// No sequence is below itself.
pub proof fn lemma_seq_less_irreflexive(a: Seq<char>)
    ensures
        !seq_less(a, a),
    decreases a.len(),
{
    if a.len() > 0 {
        lemma_seq_less_irreflexive(a.drop_first());
    }
}

/// `seq_less` is transitive.
pub proof fn lemma_seq_less_transitive(a: Seq<char>, b: Seq<char>, c: Seq<char>)
    requires
        seq_less(a, b),
        seq_less(b, c),
    ensures
        seq_less(a, c),
    decreases a.len(),
{
    if a.len() > 0 && b.len() > 0 && c.len() > 0 && a[0] == b[0] && b[0] == c[0] {
        lemma_seq_less_transitive(a.drop_first(), b.drop_first(), c.drop_first());
    }
}

/// Of two distinct sequences, exactly one is below the other.
pub proof fn lemma_seq_less_total(a: Seq<char>, b: Seq<char>)
    ensures
        a != b ==> (seq_less(a, b) || seq_less(b, a)),
        !(seq_less(a, b) && seq_less(b, a)),
    decreases a.len(),
{
    if a.len() > 0 && b.len() > 0 && a[0] == b[0] {
        lemma_seq_less_total(a.drop_first(), b.drop_first());
        if a.drop_first() == b.drop_first() {
            assert(a =~= seq![a[0]] + a.drop_first());
            assert(b =~= seq![b[0]] + b.drop_first());
        }
    } else if a.len() == 0 && b.len() == 0 {
        assert(a =~= b);
    } else if a.len() > 0 && b.len() > 0 {
        assert((a[0] as int) != (b[0] as int));
    }
}

/// `str == str`.
#[verifier::external_body]
pub(crate) fn str_eq(a: &str, b: &str) -> (r: bool)
    ensures
        r == (a@ == b@),
{
    a == b
}

/// `str < str` (byte-wise lexicographic order).
#[verifier::external_body]
pub(crate) fn str_lt(a: &str, b: &str) -> (r: bool)
    ensures
        r == seq_less(a@, b@),
{
    a < b
}

/// `str::strip_prefix`: the rest of `s` after `prefix`, if `s` starts with it.
#[verifier::external_body]
pub(crate) fn strip_prefix<'a>(s: &'a str, prefix: &str) -> (r: Option<&'a str>)
    ensures
        r is Some <==> is_prefix(prefix@, s@),
        r matches Some(rest) ==> rest@ == s@.skip(prefix@.len() as int),
{
    s.strip_prefix(prefix)
}

/// `str::starts_with` with a string pattern.
#[verifier::external_body]
pub(crate) fn starts_with(s: &str, prefix: &str) -> (r: bool)
    ensures
        r == is_prefix(prefix@, s@),
{
    s.starts_with(prefix)
}

/// Position of the first `c` in `s` (the length of `s` when there is none).
pub open spec fn char_index(s: Seq<char>, c: char) -> int
    decreases s.len(),
{
    if s.len() == 0 {
        0
    } else if s[0] == c {
        0
    } else {
        1 + char_index(s.drop_first(), c)
    }
}

/// The part of `s` before the first `c`, and the part after it (empty when
/// `s` holds no `c`).
pub open spec fn split_once_spec(s: Seq<char>, c: char) -> (Seq<char>, Seq<char>) {
    let i = char_index(s, c);
    (s.take(i), if i < s.len() { s.skip(i + 1) } else { Seq::empty() })
}

pub proof fn lemma_char_index(s: Seq<char>, c: char)
    ensures
        0 <= char_index(s, c) <= s.len(),
        char_index(s, c) < s.len() ==> s[char_index(s, c)] == c,
        forall|j: int| 0 <= j < char_index(s, c) ==> s[j] != c,
    decreases s.len(),
{
    if s.len() > 0 && s[0] != c {
        lemma_char_index(s.drop_first(), c);
        assert forall|j: int| 0 <= j < char_index(s, c) implies s[j] != c by {
            if j > 0 {
                assert(s[j] == s.drop_first()[j - 1]);
            }
        }
    }
}

/// Both parts of a split are shorter than a non-empty string.
pub proof fn lemma_split_once_shorter(s: Seq<char>, c: char)
    requires
        s.len() > 0,
    ensures
        split_once_spec(s, c).1.len() < s.len(),
        split_once_spec(s, c).0.len() <= s.len(),
{
    lemma_char_index(s, c);
}

/// `validated_struct::split_once`: splits `s` at its first `c`.
#[verifier::external_body]
pub(crate) fn split_once<'a>(s: &'a str, c: char) -> (r: (&'a str, &'a str))
    requires
        (c as u32) < 128,
    ensures
        (r.0@, r.1@) == split_once_spec(s@, c),
{
    validated_struct::split_once(s, c)
}

pub open spec fn is_digit(c: char) -> bool {
    '0' <= c && c <= '9'
}

/// The number that a sequence of decimal digits writes.
pub open spec fn digits_value(s: Seq<char>) -> nat
    decreases s.len(),
{
    if s.len() == 0 {
        0
    } else {
        digits_value(s.drop_last()) * 10 + (s.last() as nat - '0' as nat) as nat
    }
}

/// What `str::parse::<usize>` accepts: an optional `+`, then one or more
/// decimal digits whose value fits in `usize`.
/// `s` without the `+` it may start with.
pub open spec fn unsigned_digits(s: Seq<char>) -> Seq<char> {
    if s.len() > 0 && s[0] == '+' { s.drop_first() } else { s }
}

pub open spec fn spec_parse_usize(s: Seq<char>) -> Option<usize> {
    let d = unsigned_digits(s);
    if d.len() > 0 && (forall|i: int| 0 <= i < d.len() ==> is_digit(#[trigger] d[i]))
        && digits_value(d) <= usize::MAX {
        Some(digits_value(d) as usize)
    } else {
        None
    }
}

/// `str::parse::<usize>`, with the error dropped.
#[verifier::external_body]
pub(crate) fn parse_usize(s: &str) -> (r: Option<usize>)
    ensures
        r == spec_parse_usize(s@),
{
    s.parse::<usize>().ok()
}

/// The parts of `s` between the occurrences of `c` (`str::split`).
pub open spec fn split_all(s: Seq<char>, c: char) -> Seq<Seq<char>>
    decreases s.len(),
{
    let i = char_index(s, c);
    proof {
        lemma_char_index(s, c);
    }
    if i >= s.len() {
        seq![s]
    } else {
        seq![s.take(i)] + split_all(s.skip(i + 1), c)
    }
}

/// The parts of `s` between the occurrences of `c`.
pub fn split_all_strings(s: &str, c: char) -> (r: Vec<String>)
    requires
        (c as u32) < 128,
    ensures
        r@.len() == split_all(s@, c).len(),
        forall|i: int| 0 <= i < r@.len() ==> (#[trigger] r@[i])@ == split_all(s@, c)[i],
{
    let mut out: Vec<String> = Vec::new();
    let mut rem = s;
    let ghost done: Seq<Seq<char>> = Seq::empty();
    loop
        invariant
            (c as u32) < 128,
            split_all(s@, c) == done + split_all(rem@, c),
            out@.len() == done.len(),
            forall|i: int| 0 <= i < out@.len() ==> (#[trigger] out@[i])@ == done[i],
        decreases rem@.len(),
    {
        let (seg, rest) = split_once(rem, c);
        proof {
            lemma_char_index(rem@, c);
        }
        let last = seg.unicode_len() == rem.unicode_len();
        out.push(seg.to_owned());
        if last {
            proof {
                assert(seg@ =~= rem@);
                done = done.push(seg@);
                assert(split_all(s@, c) =~= done);
            }
            return out;
        }
        proof {
            let d2 = done.push(seg@);
            assert(done + split_all(rem@, c) =~= d2 + split_all(rest@, c));
            done = d2;
        }
        rem = rest;
    }
}


/// `parts` written one after the other, with `c` between each two.
pub open spec fn join(parts: Seq<Seq<char>>, c: char) -> Seq<char>
    decreases parts.len(),
{
    if parts.len() == 0 {
        Seq::empty()
    } else if parts.len() == 1 {
        parts[0]
    } else {
        parts[0] + seq![c] + join(parts.drop_first(), c)
    }
}

/// Joining one more part appends the separator and that part.
pub proof fn lemma_join_push(parts: Seq<Seq<char>>, x: Seq<char>, c: char)
    requires
        parts.len() >= 1,
    ensures
        join(parts.push(x), c) == join(parts, c) + seq![c] + x,
    decreases parts.len(),
{
    let q = parts.push(x);
    assert(q[0] == parts[0]);
    if parts.len() == 1 {
        assert(q.drop_first() =~= seq![x]);
        assert(join(seq![x], c) == x);
    } else {
        let rest = parts.drop_first();
        lemma_join_push(rest, x, c);
        assert(q.drop_first() =~= rest.push(x));
        assert(join(q, c) =~= join(parts, c) + seq![c] + x);
    }
}

/// The first `c` of `a + b`, where `a` holds no `c`, is the first `c` of `b`.
pub proof fn lemma_char_index_concat(a: Seq<char>, b: Seq<char>, c: char)
    requires
        forall|j: int| 0 <= j < a.len() ==> a[j] != c,
    ensures
        char_index(a + b, c) == a.len() + char_index(b, c),
    decreases a.len(),
{
    if a.len() > 0 {
        assert(a[0] != c);
        assert((a + b)[0] == a[0]);
        assert((a + b).drop_first() =~= a.drop_first() + b);
        lemma_char_index_concat(a.drop_first(), b, c);
    } else {
        assert(a + b =~= b);
    }
}

/// Splitting at `c` what was joined with `c` gives the parts back, when
/// none of them holds a `c`.
pub proof fn lemma_split_join(parts: Seq<Seq<char>>, c: char)
    requires
        parts.len() >= 1,
        forall|i: int, j: int| 0 <= i < parts.len() && 0 <= j < parts[i].len() ==> #[trigger] parts[i][j] != c,
    ensures
        split_all(join(parts, c), c) == parts,
    decreases parts.len(),
{
    let p0 = parts[0];
    assert forall|j: int| 0 <= j < p0.len() implies p0[j] != c by {
        assert(parts[0][j] != c);
    }
    if parts.len() == 1 {
        lemma_char_index_concat(p0, Seq::empty(), c);
        assert(p0 + Seq::<char>::empty() =~= p0);
        assert(split_all(p0, c) =~= seq![p0]);
    } else {
        let rest = parts.drop_first();
        let s = join(parts, c);
        assert(s == p0 + (seq![c] + join(rest, c)));
        lemma_char_index_concat(p0, seq![c] + join(rest, c), c);
        assert((seq![c] + join(rest, c))[0] == c);
        assert(char_index(s, c) == p0.len());
        assert(s.take(p0.len() as int) =~= p0);
        assert(s.skip(p0.len() as int + 1) =~= join(rest, c));
        assert forall|i: int, j: int| 0 <= i < rest.len() && 0 <= j < rest[i].len() implies #[trigger] rest[i][j] != c by {
            assert(rest[i] == parts[i + 1]);
            assert(parts[i + 1][j] != c);
        }
        lemma_split_join(rest, c);
        assert(split_all(s, c) =~= seq![p0] + rest);
        assert(seq![p0] + rest =~= parts);
    }
}

} // verus!
