//! Text primitives: trimming, splitting, comparing and decimal numbers.
//!
//! Strings are modelled by their sequence of characters. The functions here
//! are the only ones in the crate that walk a string character by character;
//! every parser and renderer is built from them.

use vstd::prelude::*;

verus! {

/// Appending one character to a string (`String::push`): the characters that
/// were there stay, and `c` follows them.
pub assume_specification[ String::push ](s: &mut String, c: char)
    ensures
        final(s)@ == old(s)@.push(c),
;

/// What the standard library says of bytes that are no UTF-8.
pub uninterp spec fn utf8_error_text(bytes: Seq<u8>) -> Seq<char>;

/// `String::from_utf8`: succeeds exactly on valid UTF-8, and gives the text whose
/// encoding the bytes are. The error is reported by its message, which depends
/// on the bytes alone.
#[verifier::external_body]
pub(crate) fn string_from_utf8(bytes: Vec<u8>) -> (r: Result<String, String>)
    ensures
        r is Ok <==> vstd::utf8::valid_utf8(bytes@),
        r matches Ok(s) ==> s@ == vstd::utf8::decode_utf8(bytes@),
        r matches Err(e) ==> e@ == utf8_error_text(bytes@),
{
    String::from_utf8(bytes).map_err(|e| e.to_string())
}

/// The standard library's sink for formatted text, carried through unopened.
#[verifier::external_type_specification]
#[verifier::external_body]
pub struct ExFormatter<'a>(core::fmt::Formatter<'a>);

/// The error of writing to such a sink.
#[verifier::external_type_specification]
#[verifier::external_body]
pub struct ExFormatError(core::fmt::Error);

/// The text that a sink has taken so far.
pub uninterp spec fn text_taken(f: core::fmt::Formatter) -> Seq<char>;

/// `Formatter::write_str`: where it succeeds, the sink has taken `data` behind what it
/// had. Whether it does is up to what is behind the sink.
pub assume_specification<'a>[ core::fmt::Formatter::<'a>::write_str ](
    f: &mut core::fmt::Formatter<'a>,
    data: &str,
) -> (r: Result<(), core::fmt::Error>)
    ensures
        r is Ok ==> text_taken(*final(f)) == text_taken(*old(f)) + data@,
;

/// Bytes `from` to `to` of a slice, as a vector.
pub fn copy_bytes(b: &[u8], from: usize, to: usize) -> (r: Vec<u8>)
    requires
        from <= to <= b@.len(),
    ensures
        r@ == b@.subrange(from as int, to as int),
{
    let mut r: Vec<u8> = Vec::new();
    let mut i: usize = from;
    while i < to
        invariant
            from <= i <= to <= b@.len(),
            r@ == b@.subrange(from as int, i as int),
        decreases to - i,
    {
        r.push(b[i]);
        proof {
            assert(b@.subrange(from as int, i + 1) =~= b@.subrange(from as int, i as int).push(
                b@[i as int],
            ));
        }
        i = i + 1;
    }
    r
}

/// Appends the bytes of a slice.
pub fn push_bytes(out: &mut Vec<u8>, b: &[u8])
    ensures
        final(out)@ == old(out)@ + b@,
{
    let mut i: usize = 0;
    proof {
        assert(out@ =~= old(out)@ + b@.take(0));
    }
    while i < b.len()
        invariant
            i <= b@.len(),
            out@ == old(out)@ + b@.take(i as int),
        decreases b.len() - i,
    {
        out.push(b[i]);
        proof {
            assert(out@ =~= old(out)@ + b@.take(i + 1));
        }
        i = i + 1;
    }
    proof {
        assert(b@.take(i as int) =~= b@);
    }
}

/// The characters with the Unicode property White_Space.
pub open spec fn is_white(c: char) -> bool {
    let u = c as u32;
    ||| 0x9 <= u <= 0xd
    ||| u == 0x20
    ||| u == 0x85
    ||| u == 0xa0
    ||| u == 0x1680
    ||| 0x2000 <= u <= 0x200a
    ||| u == 0x2028
    ||| u == 0x2029
    ||| u == 0x202f
    ||| u == 0x205f
    ||| u == 0x3000
}

/// Whether `c` is white space.
pub fn is_whitespace(c: char) -> (r: bool)
    ensures
        r == is_white(c),
{
    let u: u32 = c as u32;
    (0x9 <= u && u <= 0xd) || u == 0x20 || u == 0x85 || u == 0xa0 || u == 0x1680 || (0x2000 <= u
        && u <= 0x200a) || u == 0x2028 || u == 0x2029 || u == 0x202f || u == 0x205f || u == 0x3000
}

/// The characters of `s`, in order.
pub fn to_chars(s: &str) -> (r: Vec<char>)
    ensures
        r@ == s@,
{
    let mut r: Vec<char> = Vec::new();
    for c in it: s.chars()
        invariant
            r@ == it.seq().take(it.index() as int),
            it.seq() == s@,
    {
        r.push(c);
    }
    r
}

/// Whether the two strings hold the same characters.
pub fn str_eq(a: &str, b: &str) -> (r: bool)
    ensures
        r == (a@ == b@),
{
    let x: Vec<char> = to_chars(a);
    let y: Vec<char> = to_chars(b);
    if x.len() != y.len() {
        return false;
    }
    let mut i: usize = 0;
    while i < x.len()
        invariant
            i <= x.len(),
            x.len() == y.len(),
            x@ == a@,
            y@ == b@,
            forall|j: int| 0 <= j < i ==> x@[j] == y@[j],
        decreases x.len() - i,
    {
        if x[i] != y[i] {
            assert(a@[i as int] != b@[i as int]);
            return false;
        }
        i = i + 1;
    }
    assert(a@ =~= b@);
    true
}

/// `a` comes before `b` in the order of their characters.
pub open spec fn lex_lt(a: Seq<char>, b: Seq<char>) -> bool
    decreases a.len(),
{
    if b.len() == 0 {
        false
    } else if a.len() == 0 {
        true
    } else if a[0] != b[0] {
        a[0] < b[0]
    } else {
        lex_lt(a.drop_first(), b.drop_first())
    }
}

/// No text comes before itself, and of two different texts one comes before the
/// other.
pub proof fn lemma_lex_total(a: Seq<char>, b: Seq<char>)
    ensures
        !lex_lt(a, a),
        lex_lt(a, b) ==> !lex_lt(b, a),
        a != b ==> lex_lt(a, b) || lex_lt(b, a),
    decreases a.len(),
{
    if a.len() > 0 {
        let t = if b.len() > 0 { b.drop_first() } else { b };
        lemma_lex_total(a.drop_first(), t);
        if b.len() > 0 && a[0] == b[0] && a.drop_first() == b.drop_first() {
            assert(a =~= seq![a[0]] + a.drop_first());
            assert(b =~= seq![b[0]] + b.drop_first());
        }
    } else {
        if b.len() == 0 {
            assert(a =~= b);
        }
    }
}

/// The order of texts is transitive.
pub proof fn lemma_lex_trans(a: Seq<char>, b: Seq<char>, c: Seq<char>)
    requires
        lex_lt(a, b),
        lex_lt(b, c),
    ensures
        lex_lt(a, c),
    decreases a.len(),
{
    if a.len() > 0 && a[0] == b[0] && b[0] == c[0] {
        lemma_lex_trans(a.drop_first(), b.drop_first(), c.drop_first());
    }
}

/// Whether `a` comes before `b` in the order of their characters.
pub fn str_less(a: &str, b: &str) -> (r: bool)
    ensures
        r == lex_lt(a@, b@),
{
    let x: Vec<char> = to_chars(a);
    let y: Vec<char> = to_chars(b);
    let mut i: usize = 0;
    proof {
        assert(a@.skip(0) =~= a@);
        assert(b@.skip(0) =~= b@);
    }
    loop
        invariant
            x@ == a@,
            y@ == b@,
            i <= x.len(),
            i <= y.len(),
            lex_lt(a@, b@) == lex_lt(a@.skip(i as int), b@.skip(i as int)),
        decreases x.len() - i,
    {
        if i == y.len() {
            return false;
        }
        if i == x.len() {
            return true;
        }
        if x[i] != y[i] {
            return x[i] < y[i];
        }
        proof {
            assert(a@.skip(i as int).drop_first() =~= a@.skip(i + 1));
            assert(b@.skip(i as int).drop_first() =~= b@.skip(i + 1));
        }
        i = i + 1;
    }
}

// ---- trimming ----------------------------------------------------------

/// `s` without its leading white space.
pub open spec fn trimmed_start(s: Seq<char>) -> Seq<char>
    decreases s.len(),
{
    if s.len() > 0 && is_white(s[0]) {
        trimmed_start(s.drop_first())
    } else {
        s
    }
}

/// `s` without its trailing white space.
pub open spec fn trimmed_end(s: Seq<char>) -> Seq<char>
    decreases s.len(),
{
    if s.len() > 0 && is_white(s.last()) {
        trimmed_end(s.drop_last())
    } else {
        s
    }
}

/// `s` without leading and trailing white space.
pub open spec fn trimmed(s: Seq<char>) -> Seq<char> {
    trimmed_end(trimmed_start(s))
}

/// `s` without its trailing white space.
pub fn trim_end(s: &str) -> (r: &str)
    ensures
        r@ == trimmed_end(s@),
{
    let cs: Vec<char> = to_chars(s);
    let mut n: usize = cs.len();
    proof {
        assert(s@.take(n as int) =~= s@);
    }
    while n > 0 && is_whitespace(cs[n - 1])
        invariant
            n <= cs.len(),
            cs@ == s@,
            trimmed_end(s@.take(n as int)) == trimmed_end(s@),
        decreases n,
    {
        proof {
            assert(s@.take(n as int).drop_last() =~= s@.take(n - 1));
        }
        n = n - 1;
    }
    proof {
        if n > 0 {
            assert(s@.take(n as int).last() == s@[n - 1]);
        }
        assert(s@.subrange(0, n as int) =~= s@.take(n as int));
    }
    s.substring_char(0, n)
}

/// `s` without its leading white space.
pub fn trim_start(s: &str) -> (r: &str)
    ensures
        r@ == trimmed_start(s@),
{
    let cs: Vec<char> = to_chars(s);
    let mut i: usize = 0;
    proof {
        assert(s@.skip(0) =~= s@);
    }
    while i < cs.len() && is_whitespace(cs[i])
        invariant
            i <= cs.len(),
            cs@ == s@,
            trimmed_start(s@.skip(i as int)) == trimmed_start(s@),
        decreases cs.len() - i,
    {
        proof {
            assert(s@.skip(i as int).drop_first() =~= s@.skip(i + 1));
        }
        i = i + 1;
    }
    proof {
        if i < cs.len() {
            assert(s@.skip(i as int)[0] == s@[i as int]);
        }
        assert(s@.subrange(i as int, s@.len() as int) =~= s@.skip(i as int));
    }
    s.substring_char(i, cs.len())
}

/// `s` without leading and trailing white space.
pub fn trim(s: &str) -> (r: &str)
    ensures
        r@ == trimmed(s@),
{
    trim_end(trim_start(s))
}

/// Whether `s` neither begins nor ends with white space.
pub open spec fn is_tight(s: Seq<char>) -> bool {
    s.len() > 0 ==> !is_white(s[0]) && !is_white(s.last())
}

/// Trimming leaves a string alone that has no white space at its ends.
pub proof fn lemma_trim_tight(s: Seq<char>)
    requires
        is_tight(s),
    ensures
        trimmed(s) == s,
{
}

pub proof fn lemma_trimmed_start_props(s: Seq<char>)
    ensures
        trimmed_start(s).len() <= s.len(),
        trimmed_start(s) == s.skip(s.len() - trimmed_start(s).len()),
        trimmed_start(s).len() > 0 ==> !is_white(trimmed_start(s)[0]),
    decreases s.len(),
{
    if s.len() > 0 && is_white(s[0]) {
        lemma_trimmed_start_props(s.drop_first());
        let t = trimmed_start(s);
        assert(s.drop_first().skip(s.len() - 1 - t.len()) =~= s.skip(s.len() - t.len()));
    } else {
        assert(s.skip(0) =~= s);
    }
}

pub proof fn lemma_trimmed_end_props(s: Seq<char>)
    ensures
        trimmed_end(s).len() <= s.len(),
        trimmed_end(s) == s.take(trimmed_end(s).len() as int),
        trimmed_end(s).len() > 0 ==> !is_white(trimmed_end(s).last()),
    decreases s.len(),
{
    if s.len() > 0 && is_white(s.last()) {
        lemma_trimmed_end_props(s.drop_last());
        let t = trimmed_end(s);
        assert(s.drop_last().take(t.len() as int) =~= s.take(t.len() as int));
    } else {
        assert(s.take(s.len() as int) =~= s);
    }
}

// ---- splitting ---------------------------------------------------------

/// `pat` stands in `s` at position `i`.
pub open spec fn occurs_at(s: Seq<char>, pat: Seq<char>, i: int) -> bool {
    0 <= i && i + pat.len() <= s.len() && s.subrange(i, i + pat.len()) == pat
}

/// `pat` stands in `s` at position `i` and nowhere before.
pub open spec fn first_at(s: Seq<char>, pat: Seq<char>, i: int) -> bool {
    occurs_at(s, pat, i) && forall|j: int| 0 <= j < i ==> !#[trigger] occurs_at(s, pat, j)
}

/// `pat` stands in `s` at position `i` and nowhere behind.
pub open spec fn last_at(s: Seq<char>, pat: Seq<char>, i: int) -> bool {
    occurs_at(s, pat, i) && forall|j: int| i < j ==> !#[trigger] occurs_at(s, pat, j)
}

/// What stands before and behind the first `pat` in `s`.
pub open spec fn cut_first(s: Seq<char>, pat: Seq<char>) -> Option<(Seq<char>, Seq<char>)> {
    if exists|i: int| first_at(s, pat, i) {
        let i = choose|i: int| first_at(s, pat, i);
        Some((s.subrange(0, i), s.subrange(i + pat.len(), s.len() as int)))
    } else {
        None
    }
}

/// What stands before and behind the last `pat` in `s`.
pub open spec fn cut_last(s: Seq<char>, pat: Seq<char>) -> Option<(Seq<char>, Seq<char>)> {
    if exists|i: int| last_at(s, pat, i) {
        let i = choose|i: int| last_at(s, pat, i);
        Some((s.subrange(0, i), s.subrange(i + pat.len(), s.len() as int)))
    } else {
        None
    }
}

pub proof fn lemma_cut_first_at(s: Seq<char>, pat: Seq<char>, i: int)
    requires
        first_at(s, pat, i),
    ensures
        cut_first(s, pat) == Some((s.subrange(0, i), s.subrange(i + pat.len(), s.len() as int))),
{
    let k = choose|k: int| first_at(s, pat, k);
    assert(first_at(s, pat, k));
    assert(k == i);
}

pub proof fn lemma_cut_last_at(s: Seq<char>, pat: Seq<char>, i: int)
    requires
        last_at(s, pat, i),
    ensures
        cut_last(s, pat) == Some((s.subrange(0, i), s.subrange(i + pat.len(), s.len() as int))),
{
    let k = choose|k: int| last_at(s, pat, k);
    assert(last_at(s, pat, k));
    assert(k == i);
}

/// Cutting at the first of a character finds the one that was put there.
pub proof fn lemma_cut_first_char(a: Seq<char>, pat: Seq<char>, b: Seq<char>)
    requires
        pat.len() == 1,
        !a.contains(pat[0]),
    ensures
        cut_first(a + pat + b, pat) == Some((a, b)),
{
    let s = a + pat + b;
    let n = a.len() as int;
    assert(s.subrange(n, n + 1) =~= pat);
    assert forall|j: int| 0 <= j < n implies !#[trigger] occurs_at(s, pat, j) by {
        assert(s.subrange(j, j + 1)[0] == a[j]);
        assert(a.contains(a[j]));
    }
    assert(first_at(s, pat, n));
    lemma_cut_first_at(s, pat, n);
    assert(s.subrange(0, n) =~= a);
    assert(s.subrange(n + 1, s.len() as int) =~= b);
}

/// Cutting at the last of a character finds the one that was put there.
pub proof fn lemma_cut_last_char(a: Seq<char>, pat: Seq<char>, b: Seq<char>)
    requires
        pat.len() == 1,
        !b.contains(pat[0]),
    ensures
        cut_last(a + pat + b, pat) == Some((a, b)),
{
    let s = a + pat + b;
    let n = a.len() as int;
    assert(s.subrange(n, n + 1) =~= pat);
    assert forall|j: int| n < j implies !#[trigger] occurs_at(s, pat, j) by {
        if occurs_at(s, pat, j) {
            assert(s.subrange(j, j + 1)[0] == b[j - n - 1]);
            assert(b.contains(b[j - n - 1]));
        }
    }
    assert(last_at(s, pat, n));
    lemma_cut_last_at(s, pat, n);
    assert(s.subrange(0, n) =~= a);
    assert(s.subrange(n + 1, s.len() as int) =~= b);
}

/// There is nothing to cut where the character does not occur.
pub proof fn lemma_cut_none(s: Seq<char>, pat: Seq<char>)
    requires
        pat.len() == 1,
        !s.contains(pat[0]),
    ensures
        cut_first(s, pat) is None,
        cut_last(s, pat) is None,
{
    assert forall|j: int| !#[trigger] occurs_at(s, pat, j) by {
        if occurs_at(s, pat, j) {
            assert(s.subrange(j, j + 1)[0] == s[j]);
            assert(s.contains(s[j]));
        }
    }
}

/// The front part of a cut at the first occurrence does not hold it again.
pub proof fn lemma_cut_first_front(s: Seq<char>, pat: Seq<char>)
    requires
        pat.len() == 1,
        cut_first(s, pat) is Some,
    ensures
        match cut_first(s, pat) {
            Some((a, b)) => !a.contains(pat[0]) && s == a + pat + b,
            None => false,
        },
{
    let i = choose|i: int| first_at(s, pat, i);
    assert(first_at(s, pat, i));
    lemma_cut_first_at(s, pat, i);
    let a = s.subrange(0, i);
    assert forall|j: int| 0 <= j < a.len() implies a[j] != pat[0] by {
        if a[j] == pat[0] {
            assert(s.subrange(j, j + 1) =~= pat);
            assert(occurs_at(s, pat, j));
        }
    }
    assert(s =~= a + pat + s.subrange(i + 1, s.len() as int)) by {
        assert forall|j: int| i <= j < i + 1 implies s[j] == pat[j - i] by {
            assert(s.subrange(i, i + 1)[j - i] == s[j]);
        }
    }
}

/// `t` is a contiguous part of `s`.
pub open spec fn is_part(t: Seq<char>, s: Seq<char>) -> bool {
    exists|k: int| #[trigger] occurs_at(s, t, k)
}

pub proof fn lemma_part_trans(a: Seq<char>, b: Seq<char>, c: Seq<char>)
    requires
        is_part(a, b),
        is_part(b, c),
    ensures
        is_part(a, c),
{
    let i = choose|i: int| #[trigger] occurs_at(b, a, i);
    let j = choose|j: int| #[trigger] occurs_at(c, b, j);
    assert(c.subrange(i + j, i + j + a.len()) =~= b.subrange(i, i + a.len()));
    assert(occurs_at(c, a, i + j));
}

pub proof fn lemma_part_refl(a: Seq<char>)
    ensures
        is_part(a, a),
{
    assert(a.subrange(0, 0int + a.len()) =~= a);
    assert(occurs_at(a, a, 0));
}

pub proof fn lemma_part_contains(t: Seq<char>, s: Seq<char>, c: char)
    requires
        is_part(t, s),
        !s.contains(c),
    ensures
        !t.contains(c),
{
    let k = choose|k: int| #[trigger] occurs_at(s, t, k);
    assert forall|i: int| 0 <= i < t.len() implies t[i] != c by {
        assert(s.subrange(k, k + t.len())[i] == s[k + i]);
        assert(s.contains(s[k + i]));
    }
}

pub proof fn lemma_trimmed_part(s: Seq<char>)
    ensures
        is_part(trimmed(s), s),
{
    let a = trimmed_start(s);
    lemma_trimmed_start_props(s);
    lemma_trimmed_end_props(a);
    let t = trimmed(s);
    let k = s.len() - a.len();
    assert(s.subrange(k, k + t.len()) =~= t);
    assert(occurs_at(s, t, k));
}

pub proof fn lemma_cut_first_parts(s: Seq<char>, pat: Seq<char>)
    ensures
        match cut_first(s, pat) {
            Some((a, b)) => is_part(a, s) && is_part(b, s),
            None => true,
        },
{
    if exists|i: int| first_at(s, pat, i) {
        let i = choose|i: int| first_at(s, pat, i);
        lemma_cut_first_at(s, pat, i);
        let a = s.subrange(0, i);
        let b = s.subrange(i + pat.len(), s.len() as int);
        assert(s.subrange(0, 0int + a.len()) =~= a);
        assert(occurs_at(s, a, 0));
        assert(s.subrange(i + pat.len(), i + pat.len() + b.len()) =~= b);
        assert(occurs_at(s, b, i + pat.len()));
    }
}

pub proof fn lemma_cut_last_parts(s: Seq<char>, pat: Seq<char>)
    ensures
        match cut_last(s, pat) {
            Some((a, b)) => is_part(a, s) && is_part(b, s),
            None => true,
        },
{
    if exists|i: int| last_at(s, pat, i) {
        let i = choose|i: int| last_at(s, pat, i);
        lemma_cut_last_at(s, pat, i);
        let a = s.subrange(0, i);
        let b = s.subrange(i + pat.len(), s.len() as int);
        assert(s.subrange(0, 0int + a.len()) =~= a);
        assert(occurs_at(s, a, 0));
        assert(s.subrange(i + pat.len(), i + pat.len() + b.len()) =~= b);
        assert(occurs_at(s, b, i + pat.len()));
    }
}

pub proof fn lemma_after_prefix_part(s: Seq<char>, prefix: Seq<char>)
    ensures
        match after_prefix(s, prefix) {
            Some(t) => is_part(t, s),
            None => true,
        },
{
    if let Some(t) = after_prefix(s, prefix) {
        let k = prefix.len() as int;
        assert(s.subrange(k, k + t.len()) =~= t);
        assert(occurs_at(s, t, k));
    }
}

proof fn lemma_first_exists(s: Seq<char>, pat: Seq<char>, k: int)
    requires
        occurs_at(s, pat, k),
    ensures
        exists|i: int| first_at(s, pat, i),
    decreases k,
{
    if exists|j: int| 0 <= j < k && #[trigger] occurs_at(s, pat, j) {
        let j = choose|j: int| 0 <= j < k && #[trigger] occurs_at(s, pat, j);
        lemma_first_exists(s, pat, j);
    } else {
        assert(first_at(s, pat, k));
    }
}

/// Without a cut the character does not occur.
pub proof fn lemma_no_cut_no_char(s: Seq<char>, pat: Seq<char>)
    requires
        pat.len() == 1,
        cut_first(s, pat) is None,
    ensures
        !s.contains(pat[0]),
{
    lemma_cut_first_clean(s, pat);
    if s.contains(pat[0]) {
        let i = choose|i: int| 0 <= i < s.len() && s[i] == pat[0];
        assert(s.subrange(i, i + 1) =~= pat);
        assert(occurs_at(s, pat, i));
    }
}

/// The front part of a cut at the first occurrence holds no occurrence, and
/// without a cut there is none at all.
pub proof fn lemma_cut_first_clean(s: Seq<char>, pat: Seq<char>)
    requires
        pat.len() > 0,
    ensures
        match cut_first(s, pat) {
            Some((a, b)) => !is_part(pat, a),
            None => !is_part(pat, s),
        },
{
    if exists|i: int| first_at(s, pat, i) {
        let i = choose|i: int| first_at(s, pat, i);
        lemma_cut_first_at(s, pat, i);
        let a = s.subrange(0, i);
        if is_part(pat, a) {
            let k = choose|k: int| #[trigger] occurs_at(a, pat, k);
            assert(s.subrange(k, k + pat.len()) =~= a.subrange(k, k + pat.len()));
            assert(occurs_at(s, pat, k));
        }
    } else if is_part(pat, s) {
        let k = choose|k: int| #[trigger] occurs_at(s, pat, k);
        lemma_first_exists(s, pat, k);
    }
}

fn match_at(s: &Vec<char>, pat: &Vec<char>, i: usize) -> (r: bool)
    requires
        i + pat@.len() <= s@.len(),
    ensures
        r == occurs_at(s@, pat@, i as int),
{
    let mut k: usize = 0;
    while k < pat.len()
        invariant
            k <= pat.len(),
            i + pat.len() <= s.len(),
            forall|j: int| 0 <= j < k ==> s@[i + j] == pat@[j],
        decreases pat.len() - k,
    {
        if s[i + k] != pat[k] {
            assert(s@.subrange(i as int, i + pat@.len())[k as int] == s@[i + k]);
            return false;
        }
        k = k + 1;
    }
    assert(s@.subrange(i as int, i + pat@.len()) =~= pat@);
    true
}

/// Splits `s` at the first `pat`.
pub fn split_once<'a>(s: &'a str, pat: &str) -> (r: Option<(&'a str, &'a str)>)
    ensures
        match r {
            Some((a, b)) => cut_first(s@, pat@) == Some((a@, b@)),
            None => cut_first(s@, pat@) is None,
        },
{
    let cs: Vec<char> = to_chars(s);
    let ps: Vec<char> = to_chars(pat);
    if ps.len() > cs.len() {
        return None;
    }
    let last: usize = cs.len() - ps.len();
    let mut i: usize = 0;
    loop
        invariant
            cs@ == s@,
            ps@ == pat@,
            i <= last,
            last == cs.len() - ps.len(),
            forall|j: int| 0 <= j < i ==> !#[trigger] occurs_at(s@, pat@, j),
        decreases last - i,
    {
        if match_at(&cs, &ps, i) {
            proof {
                assert(first_at(s@, pat@, i as int));
                lemma_cut_first_at(s@, pat@, i as int);
            }
            return Some((s.substring_char(0, i), s.substring_char(i + ps.len(), cs.len())));
        }
        if i == last {
            return None;
        }
        i = i + 1;
    }
}

/// Splits `s` at the last `pat`.
pub fn rsplit_once<'a>(s: &'a str, pat: &str) -> (r: Option<(&'a str, &'a str)>)
    ensures
        match r {
            Some((a, b)) => cut_last(s@, pat@) == Some((a@, b@)),
            None => cut_last(s@, pat@) is None,
        },
{
    let cs: Vec<char> = to_chars(s);
    let ps: Vec<char> = to_chars(pat);
    if ps.len() > cs.len() {
        return None;
    }
    let last: usize = cs.len() - ps.len();
    let mut i: usize = last;
    loop
        invariant
            cs@ == s@,
            ps@ == pat@,
            i <= last,
            last == cs.len() - ps.len(),
            forall|j: int| i < j ==> !#[trigger] occurs_at(s@, pat@, j),
        decreases i,
    {
        if match_at(&cs, &ps, i) {
            proof {
                assert(last_at(s@, pat@, i as int));
                lemma_cut_last_at(s@, pat@, i as int);
            }
            return Some((s.substring_char(0, i), s.substring_char(i + ps.len(), cs.len())));
        }
        if i == 0 {
            return None;
        }
        i = i - 1;
    }
}

/// What follows `prefix` at the start of `s`.
pub open spec fn after_prefix(s: Seq<char>, prefix: Seq<char>) -> Option<Seq<char>> {
    if occurs_at(s, prefix, 0) {
        Some(s.skip(prefix.len() as int))
    } else {
        None
    }
}

/// What stands before `suffix` at the end of `s`.
pub open spec fn before_suffix(s: Seq<char>, suffix: Seq<char>) -> Option<Seq<char>> {
    if occurs_at(s, suffix, s.len() - suffix.len()) {
        Some(s.take(s.len() - suffix.len()))
    } else {
        None
    }
}

/// What stands before `suffix` at the end of `s`.
pub fn strip_suffix<'a>(s: &'a str, suffix: &str) -> (r: Option<&'a str>)
    ensures
        match r {
            Some(t) => before_suffix(s@, suffix@) == Some(t@),
            None => before_suffix(s@, suffix@) is None,
        },
{
    let cs: Vec<char> = to_chars(s);
    let ps: Vec<char> = to_chars(suffix);
    if ps.len() <= cs.len() && match_at(&cs, &ps, cs.len() - ps.len()) {
        let n: usize = cs.len() - ps.len();
        proof {
            assert(s@.subrange(0, n as int) =~= s@.take(n as int));
        }
        Some(s.substring_char(0, n))
    } else {
        None
    }
}

/// What follows `prefix` at the start of `s`.
pub fn strip_prefix<'a>(s: &'a str, prefix: &str) -> (r: Option<&'a str>)
    ensures
        match r {
            Some(t) => after_prefix(s@, prefix@) == Some(t@),
            None => after_prefix(s@, prefix@) is None,
        },
{
    let cs: Vec<char> = to_chars(s);
    let ps: Vec<char> = to_chars(prefix);
    if ps.len() <= cs.len() && match_at(&cs, &ps, 0) {
        proof {
            assert(s@.subrange(prefix@.len() as int, s@.len() as int) =~= s@.skip(
                prefix@.len() as int,
            ));
        }
        Some(s.substring_char(ps.len(), cs.len()))
    } else {
        None
    }
}

/// Whether `c` occurs in `s`.
pub fn contains_char(s: &str, c: char) -> (r: bool)
    ensures
        r == s@.contains(c),
{
    let cs: Vec<char> = to_chars(s);
    let mut i: usize = 0;
    while i < cs.len()
        invariant
            i <= cs.len(),
            cs@ == s@,
            forall|j: int| 0 <= j < i ==> s@[j] != c,
        decreases cs.len() - i,
    {
        if cs[i] == c {
            assert(s@[i as int] == c);
            return true;
        }
        i = i + 1;
    }
    false
}

/// Whether `pat` stands somewhere in `s`.
pub open spec fn has_part(s: Seq<char>, pat: Seq<char>) -> bool {
    exists|i: int| occurs_at(s, pat, i)
}

/// Whether `pat` stands somewhere in `s`.
pub fn contains(s: &str, pat: &str) -> (r: bool)
    ensures
        r == has_part(s@, pat@),
{
    let cs: Vec<char> = to_chars(s);
    let ps: Vec<char> = to_chars(pat);
    if ps.len() > cs.len() {
        return false;
    }
    let last: usize = cs.len() - ps.len();
    let mut i: usize = 0;
    while i <= last
        invariant
            last == cs@.len() - ps@.len(),
            i <= last + 1,
            cs@ == s@,
            ps@ == pat@,
            cs@.len() <= usize::MAX,
            forall|j: int| 0 <= j < i ==> !occurs_at(s@, pat@, j),
        decreases last + 1 - i,
    {
        if match_at(&cs, &ps, i) {
            assert(occurs_at(s@, pat@, i as int));
            return true;
        }
        if i == last {
            return false;
        }
        i = i + 1;
    }
    false
}

/// A text in lower case, by the rules of Unicode.
pub uninterp spec fn lowercase_text(s: Seq<char>) -> Seq<char>;

/// `str::to_lowercase`: the text in lower case. Which characters have a lower case,
/// and what it is, is not stated.
#[verifier::external_body]
pub(crate) fn to_lowercase(s: &str) -> (r: String)
    ensures
        r@ == lowercase_text(s@),
{
    s.to_lowercase()
}

/// A text without its last character, if it has one.
pub open spec fn shortened(s: Seq<char>) -> Seq<char> {
    if s.len() == 0 {
        s
    } else {
        s.drop_last()
    }
}

/// A text without its last character, if it has one.
pub fn shorten(s: &str) -> (r: String)
    ensures
        r@ == shortened(s@),
{
    let n: usize = s.unicode_len();
    if n == 0 {
        return s.to_owned();
    }
    let r: String = s.substring_char(0, n - 1).to_owned();
    proof {
        assert(r@ =~= s@.drop_last());
    }
    r
}

/// The parts of `s` between the separators `sep`; one more than there are
/// separators.
pub open spec fn pieces(s: Seq<char>, sep: char) -> Seq<Seq<char>>
    decreases s.len(),
{
    if s.len() == 0 {
        seq![Seq::empty()]
    } else {
        let p = pieces(s.drop_last(), sep);
        if s.last() == sep {
            p.push(Seq::empty())
        } else {
            p.update(p.len() - 1, p.last().push(s.last()))
        }
    }
}

/// The characters of each string of a list.
pub open spec fn texts(v: Seq<&str>) -> Seq<Seq<char>> {
    v.map_values(|x: &str| x@)
}

pub proof fn lemma_pieces_nonempty(s: Seq<char>, sep: char)
    ensures
        pieces(s, sep).len() > 0,
    decreases s.len(),
{
    if s.len() > 0 {
        lemma_pieces_nonempty(s.drop_last(), sep);
    }
}

/// A string without the separator is its own only piece.
pub proof fn lemma_pieces_single(s: Seq<char>, sep: char)
    requires
        !s.contains(sep),
    ensures
        pieces(s, sep) == seq![s],
    decreases s.len(),
{
    if s.len() > 0 {
        let t = s.drop_last();
        assert(!t.contains(sep)) by {
            assert forall|i: int| 0 <= i < t.len() implies t[i] != sep by {
                assert(s[i] == t[i]);
            }
        }
        lemma_pieces_single(t, sep);
        assert(s.contains(s.last()));
        assert(t.push(s.last()) =~= s);
        assert(pieces(s, sep) =~= seq![s]);
    } else {
        assert(s =~= Seq::<char>::empty());
    }
}

/// A separator between two strings keeps their pieces apart.
pub proof fn lemma_pieces_join(a: Seq<char>, sep: char, b: Seq<char>)
    ensures
        pieces(a + seq![sep] + b, sep) == pieces(a, sep) + pieces(b, sep),
    decreases b.len(),
{
    let s = a + seq![sep] + b;
    lemma_pieces_nonempty(a, sep);
    lemma_pieces_nonempty(b, sep);
    if b.len() == 0 {
        assert(s.drop_last() =~= a);
        assert(pieces(s, sep) =~= pieces(a, sep) + pieces(b, sep));
    } else {
        let bb = b.drop_last();
        lemma_pieces_join(a, sep, bb);
        lemma_pieces_nonempty(bb, sep);
        assert(s.drop_last() =~= a + seq![sep] + bb);
        assert(pieces(s, sep) =~= pieces(a, sep) + pieces(b, sep));
    }
}

/// Every character but the separator is found again in some piece.
pub proof fn lemma_pieces_contain(s: Seq<char>, sep: char, c: char)
    requires
        s.contains(c),
        c != sep,
    ensures
        exists|k: int| 0 <= k < pieces(s, sep).len() && (#[trigger] pieces(s, sep)[k]).contains(c),
    decreases s.len(),
{
    let t = s.drop_last();
    let p = pieces(t, sep);
    let q = pieces(s, sep);
    lemma_pieces_nonempty(t, sep);
    if s.last() == c {
        let x = q.last();
        assert(x == p.last().push(c));
        assert(x[x.len() - 1] == c);
        assert(q[q.len() - 1].contains(c));
    } else {
        let i = choose|i: int| 0 <= i < s.len() && s[i] == c;
        assert(t[i] == c);
        lemma_pieces_contain(t, sep, c);
        let k = choose|k: int| 0 <= k < p.len() && (#[trigger] p[k]).contains(c);
        if k < p.len() - 1 || s.last() == sep {
            assert(q[k] == p[k]);
        } else {
            let m = choose|m: int| 0 <= m < p[k].len() && p[k][m] == c;
            assert(q[k] == p[k].push(s.last()));
            assert(q[k][m] == c);
        }
        assert(q[k].contains(c));
    }
}

/// Splits `s` at every `sep`.
pub fn split<'a>(s: &'a str, sep: char) -> (r: Vec<&'a str>)
    ensures
        texts(r@) == pieces(s@, sep),
        r@.len() > 0,
{
    let cs: Vec<char> = to_chars(s);
    let mut r: Vec<&'a str> = Vec::new();
    let mut start: usize = 0;
    let mut i: usize = 0;
    proof {
        assert(s@.take(0) =~= Seq::<char>::empty());
        assert(texts(r@).push(s@.subrange(0, 0)) =~= pieces(s@.take(0), sep));
    }
    while i < cs.len()
        invariant
            cs@ == s@,
            start <= i <= cs.len(),
            texts(r@).push(s@.subrange(start as int, i as int)) == pieces(s@.take(i as int), sep),
        decreases cs.len() - i,
    {
        let ghost before = texts(r@);
        let ghost piece = s@.subrange(start as int, i as int);
        proof {
            assert(s@.take(i + 1).drop_last() =~= s@.take(i as int));
            assert(s@.take(i + 1).last() == s@[i as int]);
        }
        if cs[i] == sep {
            r.push(s.substring_char(start, i));
            start = i + 1;
            proof {
                assert(texts(r@) =~= before.push(piece));
                assert(s@.subrange(i + 1, i + 1) =~= Seq::<char>::empty());
            }
        } else {
            proof {
                assert(s@.subrange(start as int, i + 1) =~= piece.push(s@[i as int]));
                assert(before.push(s@.subrange(start as int, i + 1)) =~= pieces(
                    s@.take(i + 1),
                    sep,
                ));
            }
        }
        i = i + 1;
    }
    let ghost before = texts(r@);
    r.push(s.substring_char(start, cs.len()));
    proof {
        assert(s@.take(i as int) =~= s@);
        assert(texts(r@) =~= before.push(s@.subrange(start as int, i as int)));
    }
    r
}

/// Whether one of the lines of `s`, trimmed, is `m`.
pub open spec fn has_line(s: Seq<char>, m: Seq<char>) -> bool {
    exists|k: int|
        0 <= k < pieces(s, '\n').len() && trimmed(#[trigger] pieces(s, '\n')[k]) == m
}

/// Whether one of the lines of `s`, trimmed, is `m`.
pub fn contains_line(s: &str, m: &str) -> (r: bool)
    ensures
        r == has_line(s@, m@),
{
    let lines: Vec<&str> = split(s, '\n');
    let ghost p = texts(lines@);
    let mut i: usize = 0;
    while i < lines.len()
        invariant
            i <= lines.len(),
            p == texts(lines@),
            p == pieces(s@, '\n'),
            forall|k: int| 0 <= k < i ==> trimmed(#[trigger] p[k]) != m@,
        decreases lines.len() - i,
    {
        assert(p[i as int] == lines@[i as int]@);
        if str_eq(trim(lines[i]), m) {
            return true;
        }
        i = i + 1;
    }
    false
}

/// A line without the carriage return at its end, if it has one.
pub open spec fn without_cr(s: Seq<char>) -> Seq<char> {
    if s.len() > 0 && s.last() == '\r' {
        s.drop_last()
    } else {
        s
    }
}

/// The lines of `s`: each ends in a line feed, with or without a carriage return
/// before it; the last one need not.
pub open spec fn lines_of(s: Seq<char>) -> Seq<Seq<char>> {
    let p = pieces(s, '\n');
    let ended = Seq::new((p.len() - 1) as nat, |i: int| without_cr(p[i]));
    if p.last().len() == 0 {
        ended
    } else {
        ended.push(p.last())
    }
}

/// The lines of `s`.
pub fn lines<'a>(s: &'a str) -> (r: Vec<&'a str>)
    ensures
        texts(r@) == lines_of(s@),
{
    let list: Vec<&'a str> = split(s, '\n');
    let ghost p = pieces(s@, '\n');
    let n: usize = list.len() - 1;
    let mut r: Vec<&'a str> = Vec::new();
    let mut i: usize = 0;
    proof {
        reveal_strlit("\r");
        assert("\r"@ =~= seq!['\r']);
        assert(p.len() == list@.len());
    }
    while i < n
        invariant
            i <= n,
            n + 1 == list@.len(),
            texts(list@) == p,
            "\r"@ == seq!['\r'],
            texts(r@) == Seq::new(i as nat, |k: int| without_cr(p[k])),
        decreases n - i,
    {
        let ghost before = texts(r@);
        let line: &'a str = list[i];
        proof {
            assert(p[i as int] == line@);
            if line@.len() > 0 {
                assert(line@.skip(line@.len() - 1) =~= seq![line@.last()]);
                assert(line@.take(line@.len() - 1) =~= line@.drop_last());
                if line@.last() != '\r' {
                    assert(seq![line@.last()][0] != seq!['\r'][0]);
                }
            }
        }
        match strip_suffix(line, "\r") {
            Some(t) => {
                r.push(t);
            },
            None => {
                r.push(line);
            },
        }
        proof {
            assert(texts(r@) =~= before.push(without_cr(p[i as int])));
            assert(Seq::new((i + 1) as nat, |k: int| without_cr(p[k])) =~= before.push(
                without_cr(p[i as int]),
            ));
        }
        i = i + 1;
    }
    let ghost before = texts(r@);
    proof {
        assert(p[n as int] == list@[n as int]@);
    }
    if !list[n].is_empty() {
        r.push(list[n]);
        proof {
            assert(texts(r@) =~= before.push(p.last()));
        }
    }
    r
}

/// The words of `s`: its maximal parts without white space.
pub open spec fn words(s: Seq<char>) -> Seq<Seq<char>>
    decreases s.len(),
{
    if s.len() == 0 {
        Seq::empty()
    } else {
        let w = words(s.drop_last());
        if is_white(s.last()) {
            w
        } else if s.len() >= 2 && !is_white(s[s.len() - 2]) {
            w.update(w.len() - 1, w.last().push(s.last()))
        } else {
            w.push(seq![s.last()])
        }
    }
}

/// Whether there is no white space in `s`.
pub open spec fn no_white(s: Seq<char>) -> bool {
    forall|i: int| 0 <= i < s.len() ==> !is_white(#[trigger] s[i])
}

/// A text without white space is one word.
pub proof fn lemma_words_single(s: Seq<char>)
    requires
        s.len() > 0,
        no_white(s),
    ensures
        words(s) == seq![s],
    decreases s.len(),
{
    let t = s.drop_last();
    if s.len() == 1 {
        assert(t =~= Seq::<char>::empty());
        assert(words(t) =~= Seq::<Seq<char>>::empty());
        assert(s =~= seq![s.last()]);
        assert(words(s) =~= seq![s]);
    } else {
        assert(no_white(t)) by {
            assert forall|i: int| 0 <= i < t.len() implies !is_white(#[trigger] t[i]) by {
                assert(t[i] == s[i]);
            }
        }
        lemma_words_single(t);
        assert(!is_white(s[s.len() - 2]));
        assert(!is_white(s[s.len() - 1]));
        assert(t.push(s.last()) =~= s);
        assert(words(s) =~= seq![s]);
    }
}

proof fn lemma_words_nonempty(s: Seq<char>)
    requires
        s.len() > 0,
        !is_white(s.last()),
    ensures
        words(s).len() > 0,
    decreases s.len(),
{
    if s.len() >= 2 && !is_white(s[s.len() - 2]) {
        assert(s.drop_last().last() == s[s.len() - 2]);
        lemma_words_nonempty(s.drop_last());
    }
}

/// White space between two texts keeps their words apart.
pub proof fn lemma_words_join(a: Seq<char>, sep: char, b: Seq<char>)
    requires
        is_white(sep),
    ensures
        words(a + seq![sep] + b) == words(a) + words(b),
    decreases b.len(),
{
    let s = a + seq![sep] + b;
    if b.len() == 0 {
        assert(s.drop_last() =~= a);
        assert(words(s) =~= words(a) + words(b));
    } else {
        let bb = b.drop_last();
        lemma_words_join(a, sep, bb);
        assert(s.drop_last() =~= a + seq![sep] + bb);
        assert(s.last() == b.last());
        if b.len() >= 2 {
            assert(s[s.len() - 2] == b[b.len() - 2]);
            if !is_white(b[b.len() - 2]) {
                assert(bb.last() == b[b.len() - 2]);
                lemma_words_nonempty(bb);
            }
        } else {
            assert(s[s.len() - 2] == sep);
        }
        assert(words(s) =~= words(a) + words(b));
    }
}

/// Splits `s` into its words.
pub fn split_whitespace<'a>(s: &'a str) -> (r: Vec<&'a str>)
    ensures
        texts(r@) == words(s@),
{
    let cs: Vec<char> = to_chars(s);
    let mut r: Vec<&'a str> = Vec::new();
    let mut start: usize = 0;
    let mut i: usize = 0;
    proof {
        assert(s@.take(0) =~= Seq::<char>::empty());
        assert(texts(r@) =~= Seq::<Seq<char>>::empty());
    }
    while i < cs.len()
        invariant
            cs@ == s@,
            start <= i <= cs.len(),
            start == i ==> (i == 0 || is_white(s@[i - 1])) && texts(r@) == words(s@.take(i as int)),
            start < i ==> !is_white(s@[i - 1]) && texts(r@).push(
                s@.subrange(start as int, i as int),
            ) == words(s@.take(i as int)),
        decreases cs.len() - i,
    {
        let ghost before = texts(r@);
        let ghost piece = s@.subrange(start as int, i as int);
        let ghost next = s@.take(i + 1);
        proof {
            assert(next.drop_last() =~= s@.take(i as int));
            assert(next.last() == s@[i as int]);
            if i > 0 {
                assert(next[next.len() - 2] == s@[i - 1]);
            }
        }
        if is_whitespace(cs[i]) {
            if start < i {
                r.push(s.substring_char(start, i));
                proof {
                    assert(texts(r@) =~= before.push(piece));
                }
            }
            start = i + 1;
        } else {
            proof {
                assert(s@.subrange(start as int, i + 1) =~= piece.push(s@[i as int]));
                if start == i {
                    assert(piece.push(s@[i as int]) =~= seq![s@[i as int]]);
                }
                assert(before.push(s@.subrange(start as int, i + 1)) =~= words(next));
            }
        }
        i = i + 1;
    }
    proof {
        assert(s@.take(i as int) =~= s@);
    }
    if start < i {
        let ghost before = texts(r@);
        r.push(s.substring_char(start, i));
        proof {
            assert(texts(r@) =~= before.push(s@.subrange(start as int, i as int)));
        }
    }
    r
}

// ---- decimal numbers ---------------------------------------------------

/// Why a text is no number of the wanted type.
#[derive(Debug, Clone, Copy, PartialEq, Eq, Structural)]
pub enum NumError {
    /// There is nothing to read.
    Empty,
    /// Something other than a decimal digit.
    InvalidDigit,
    /// Above the largest value of the type.
    TooLarge,
    /// Below the smallest value of the type.
    TooSmall,
}

impl NumError {
    /// The message for this error.
    pub open spec fn text(self) -> Seq<char> {
        match self {
            NumError::Empty => "cannot parse integer from empty string"@,
            NumError::InvalidDigit => "invalid digit found in string"@,
            NumError::TooLarge => "number too large to fit in target type"@,
            NumError::TooSmall => "number too small to fit in target type"@,
        }
    }

    /// The message for this error.
    pub fn message(self) -> (r: &'static str)
        ensures
            r@ == self.text(),
    {
        match self {
            NumError::Empty => "cannot parse integer from empty string",
            NumError::InvalidDigit => "invalid digit found in string",
            NumError::TooLarge => "number too large to fit in target type",
            NumError::TooSmall => "number too small to fit in target type",
        }
    }
}

/// A decimal digit.
pub open spec fn is_digit(c: char) -> bool {
    '0' <= c <= '9'
}

/// The value of the decimal digit `c`.
pub open spec fn digit_value(c: char) -> int {
    c as int - '0' as int
}

/// The number that the digits `s` spell, read from the left, as long as it
/// does not exceed `max`. The first character that spoils it decides the error.
pub open spec fn digits_value(s: Seq<char>, max: int) -> Result<int, NumError>
    decreases s.len(),
{
    if s.len() == 0 {
        Ok(0)
    } else {
        match digits_value(s.drop_last(), max) {
            Err(e) => Err(e),
            Ok(v) => if !is_digit(s.last()) {
                Err(NumError::InvalidDigit)
            } else if v * 10 + digit_value(s.last()) > max {
                Err(NumError::TooLarge)
            } else {
                Ok(v * 10 + digit_value(s.last()))
            },
        }
    }
}

/// The number `s` denotes: decimal digits, with an optional leading `+`, at
/// most `max`.
pub open spec fn unsigned_value(s: Seq<char>, max: int) -> Result<int, NumError> {
    if s.len() == 0 {
        Err(NumError::Empty)
    } else if s[0] == '+' {
        if s.len() == 1 {
            Err(NumError::InvalidDigit)
        } else {
            digits_value(s.drop_first(), max)
        }
    } else {
        digits_value(s, max)
    }
}

/// The number `s` denotes: decimal digits, with an optional leading sign, from
/// `-max - 1` to `max`.
pub open spec fn signed_value(s: Seq<char>, max: int) -> Result<int, NumError> {
    if s.len() > 1 && s[0] == '-' {
        match digits_value(s.drop_first(), max + 1) {
            Ok(v) => Ok(-v),
            Err(NumError::TooLarge) => Err(NumError::TooSmall),
            Err(e) => Err(e),
        }
    } else {
        unsigned_value(s, max)
    }
}

pub proof fn lemma_digits_value_bounds(s: Seq<char>, max: int)
    requires
        0 <= max,
    ensures
        digits_value(s, max) matches Ok(v) ==> 0 <= v <= max,
    decreases s.len(),
{
    if s.len() > 0 {
        lemma_digits_value_bounds(s.drop_last(), max);
    }
}

/// One bad prefix spoils the whole.
proof fn lemma_digits_value_err(s: Seq<char>, n: int, max: int)
    requires
        0 <= n <= s.len(),
        digits_value(s.take(n), max) is Err,
    ensures
        digits_value(s, max) == digits_value(s.take(n), max),
    decreases s.len() - n,
{
    if n < s.len() {
        assert(s.take(n + 1).drop_last() =~= s.take(n));
        lemma_digits_value_err(s, n + 1, max);
    } else {
        assert(s.take(n) =~= s);
    }
}

/// Reads the digits of `s` from position `from` on, as a number of at most `max`.
pub fn parse_digits(s: &Vec<char>, from: usize, max: u64) -> (r: Result<u64, NumError>)
    requires
        from <= s@.len(),
    ensures
        match r {
            Ok(v) => digits_value(s@.skip(from as int), max as int) == Ok::<int, NumError>(v as int) && v <= max,
            Err(e) => digits_value(s@.skip(from as int), max as int) == Err::<int, NumError>(e),
        },
{
    let ghost t = s@.skip(from as int);
    let mut v: u64 = 0;
    let mut i: usize = from;
    while i < s.len()
        invariant
            from <= i <= s.len(),
            t == s@.skip(from as int),
            v <= max,
            digits_value(t.take(i - from), max as int) == Ok::<int, NumError>(v as int),
        decreases s.len() - i,
    {
        let c: char = s[i];
        proof {
            assert(t.take(i + 1 - from).drop_last() =~= t.take(i - from));
            assert(t.take(i + 1 - from).last() == c);
        }
        if !(c >= '0' && c <= '9') {
            proof {
                lemma_digits_value_err(t, i + 1 - from, max as int);
            }
            return Err(NumError::InvalidDigit);
        }
        let d: u64 = (c as u32 - '0' as u32) as u64;
        if (v as u128) * 10 + (d as u128) > max as u128 {
            proof {
                lemma_digits_value_err(t, i + 1 - from, max as int);
            }
            return Err(NumError::TooLarge);
        }
        v = v * 10 + d;
        i = i + 1;
    }
    proof {
        assert(t.take(i - from) =~= t);
    }
    Ok(v)
}

/// Reads an unsigned decimal number of at most `max`.
pub fn parse_unsigned(s: &str, max: u64) -> (r: Result<u64, NumError>)
    ensures
        match r {
            Ok(v) => unsigned_value(s@, max as int) == Ok::<int, NumError>(v as int) && v <= max,
            Err(e) => unsigned_value(s@, max as int) == Err::<int, NumError>(e),
        },
{
    let cs: Vec<char> = to_chars(s);
    if cs.len() == 0 {
        return Err(NumError::Empty);
    }
    proof {
        assert(cs@.skip(0) =~= s@);
        assert(cs@.skip(1) =~= s@.drop_first());
    }
    if cs[0] == '+' {
        if cs.len() == 1 {
            return Err(NumError::InvalidDigit);
        }
        return parse_digits(&cs, 1, max);
    }
    parse_digits(&cs, 0, max)
}

/// Reads a signed 32-bit decimal number.
pub fn parse_i32(s: &str) -> (r: Result<i32, NumError>)
    ensures
        match r {
            Ok(v) => signed_value(s@, i32::MAX as int) == Ok::<int, NumError>(v as int),
            Err(e) => signed_value(s@, i32::MAX as int) == Err::<int, NumError>(e),
        },
{
    let cs: Vec<char> = to_chars(s);
    if cs.len() > 1 && cs[0] == '-' {
        proof {
            assert(cs@.skip(1) =~= s@.drop_first());
        }
        match parse_digits(&cs, 1, 0x8000_0000) {
            Ok(v) => Ok((0 - (v as i64)) as i32),
            Err(NumError::TooLarge) => Err(NumError::TooSmall),
            Err(e) => Err(e),
        }
    } else {
        match parse_unsigned(s, 0x7fff_ffff) {
            Ok(v) => Ok(v as i32),
            Err(e) => Err(e),
        }
    }
}

/// The decimal digit for `d`.
pub open spec fn digit_char(d: int) -> char {
    ('0' as int + d) as char
}

/// The decimal digits of `n`, without leading zeros.
pub open spec fn decimal(n: int) -> Seq<char>
    decreases n,
{
    if n < 10 {
        seq![digit_char(n)]
    } else {
        decimal(n / 10).push(digit_char(n % 10))
    }
}

/// The decimal digits of `n`, behind a `-` where `n` is negative.
pub open spec fn signed_decimal(n: int) -> Seq<char> {
    if n < 0 {
        seq!['-'] + decimal(-n)
    } else {
        decimal(n)
    }
}

fn digit_to_char(d: u64) -> (r: char)
    requires
        d < 10,
    ensures
        r == digit_char(d as int),
{
    (('0' as u8) + (d as u8)) as char
}

/// The decimal digits of `n`.
pub fn dec(n: u64) -> (r: String)
    ensures
        r@ == decimal(n as int),
    decreases n,
{
    if n < 10 {
        let mut s: String = String::new();
        s.push(digit_to_char(n));
        assert(s@ =~= seq![digit_char(n as int)]);
        s
    } else {
        let mut s: String = dec(n / 10);
        s.push(digit_to_char(n % 10));
        s
    }
}

/// The decimal digits of `n`, behind a `-` where `n` is negative.
pub fn dec_i32(n: i32) -> (r: String)
    ensures
        r@ == signed_decimal(n as int),
{
    if n < 0 {
        let m: u64 = (0 - (n as i64)) as u64;
        let mut s: String = String::new();
        s.push('-');
        s.append(dec(m).as_str());
        assert(s@ =~= seq!['-'] + decimal(m as int));
        s
    } else {
        dec(n as u64)
    }
}

/// Every character of a decimal rendering is a digit, and there is at least one.
pub proof fn lemma_decimal_digits(n: int)
    requires
        0 <= n,
    ensures
        decimal(n).len() > 0,
        forall|i: int| 0 <= i < decimal(n).len() ==> is_digit(#[trigger] decimal(n)[i]),
    decreases n,
{
    if n >= 10 {
        lemma_decimal_digits(n / 10);
    }
}

/// Reading back the digits of `n` gives `n`, as long as `n` does not exceed the
/// limit.
pub proof fn lemma_decimal_roundtrip(n: int, max: int)
    requires
        0 <= n <= max,
    ensures
        digits_value(decimal(n), max) == Ok::<int, NumError>(n),
        unsigned_value(decimal(n), max) == Ok::<int, NumError>(n),
    decreases n,
{
    lemma_decimal_digits(n);
    assert(is_digit(decimal(n)[0]));
    if n < 10 {
        assert(decimal(n).drop_last() =~= Seq::<char>::empty());
        assert(decimal(n).last() == digit_char(n));
        assert(digits_value(decimal(n).drop_last(), max) == Ok::<int, NumError>(0));
    } else {
        lemma_decimal_roundtrip(n / 10, max);
        assert(decimal(n).drop_last() =~= decimal(n / 10));
        assert(decimal(n).last() == digit_char(n % 10));
    }
}

/// Reading back a signed rendering gives the number again.
pub proof fn lemma_signed_decimal_roundtrip(n: int, max: int)
    requires
        -max - 1 <= n <= max,
    ensures
        signed_value(signed_decimal(n), max) == Ok::<int, NumError>(n),
{
    if n < 0 {
        lemma_decimal_roundtrip(-n, max + 1);
        lemma_decimal_digits(-n);
        assert(signed_decimal(n).drop_first() =~= decimal(-n));
    } else {
        lemma_decimal_roundtrip(n, max);
        lemma_decimal_digits(n);
        assert(is_digit(decimal(n)[0]));
    }
}

// ---- laws --------------------------------------------------------------

/// Pieces with the separator between any two of them.
pub open spec fn rejoined(p: Seq<Seq<char>>, sep: char) -> Seq<char>
    decreases p.len(),
{
    if p.len() == 0 {
        Seq::empty()
    } else if p.len() == 1 {
        p[0]
    } else {
        rejoined(p.drop_last(), sep) + seq![sep] + p.last()
    }
}

/// The pieces of a text, put together again, are the text; and none of them holds the
/// separator.
pub proof fn law_pieces(s: Seq<char>, sep: char)
    ensures
        rejoined(pieces(s, sep), sep) == s,
        forall|k: int| 0 <= k < pieces(s, sep).len() ==> !(#[trigger] pieces(s, sep)[k]).contains(sep),
    decreases s.len(),
{
    let p = pieces(s, sep);
    if s.len() == 0 {
        assert(rejoined(p, sep) =~= s);
    } else {
        let t = s.drop_last();
        let q = pieces(t, sep);
        law_pieces(t, sep);
        lemma_pieces_nonempty(t, sep);
        assert(t.push(s.last()) =~= s);
        if s.last() == sep {
            assert(p.drop_last() =~= q);
            assert(rejoined(p, sep) =~= s);
        } else {
            assert(p.drop_last() =~= q.drop_last());
            let last = q.last().push(s.last());
            assert(p.last() == last);
            if q.len() == 1 {
                assert(rejoined(p, sep) =~= s);
            } else {
                assert(t == rejoined(q.drop_last(), sep) + seq![sep] + q.last());
                assert(rejoined(p, sep) =~= rejoined(q.drop_last(), sep) + seq![sep] + last);
                assert(rejoined(p, sep) =~= s);
            }
            assert forall|k: int| 0 <= k < p.len() implies !(#[trigger] p[k]).contains(sep) by {
                if k < p.len() - 1 {
                    assert(p[k] == q[k]);
                } else {
                    assert(!q[k].contains(sep));
                    assert forall|i: int| 0 <= i < last.len() implies last[i] != sep by {
                        if i < q[k].len() {
                            assert(q[k].contains(q[k][i]));
                        }
                    }
                }
            }
        }
    }
}

/// What is trimmed off is white space, and what is left has none at its ends.
pub proof fn law_trimmed(s: Seq<char>)
    ensures
        is_tight(trimmed(s)),
        exists|i: int|
            0 <= i && i + trimmed(s).len() <= s.len() && #[trigger] s.subrange(
                i,
                i + trimmed(s).len(),
            ) == trimmed(s) && (forall|k: int| 0 <= k < i ==> is_white(#[trigger] s[k])) && (forall|
                k: int,
            |
                i + trimmed(s).len() <= k < s.len() ==> is_white(#[trigger] s[k])),
{
    let a = trimmed_start(s);
    let t = trimmed(s);
    lemma_trimmed_start_props(s);
    lemma_trimmed_end_props(a);
    lemma_start_is_white(s);
    lemma_end_is_white(a);
    let i: int = s.len() - a.len();
    assert(s.subrange(i, i + t.len()) =~= t);
    assert forall|k: int| i + t.len() <= k < s.len() implies is_white(#[trigger] s[k]) by {
        assert(a[k - i] == s[k]);
    }
    if t.len() > 0 {
        assert(t[0] == a[0]);
    }
}

proof fn lemma_start_is_white(s: Seq<char>)
    ensures
        forall|k: int| 0 <= k < s.len() - trimmed_start(s).len() ==> is_white(#[trigger] s[k]),
    decreases s.len(),
{
    if s.len() > 0 && is_white(s[0]) {
        let t = s.drop_first();
        lemma_start_is_white(t);
        assert forall|k: int| 0 <= k < s.len() - trimmed_start(s).len() implies is_white(
            #[trigger] s[k],
        ) by {
            if k > 0 {
                assert(t[k - 1] == s[k]);
            }
        }
    }
}

proof fn lemma_end_is_white(s: Seq<char>)
    ensures
        forall|k: int| trimmed_end(s).len() <= k < s.len() ==> is_white(#[trigger] s[k]),
    decreases s.len(),
{
    if s.len() > 0 && is_white(s.last()) {
        let t = s.drop_last();
        lemma_end_is_white(t);
        assert forall|k: int| trimmed_end(s).len() <= k < s.len() implies is_white(
            #[trigger] s[k],
        ) by {
            if k < s.len() - 1 {
                assert(t[k] == s[k]);
            }
        }
    }
}

/// A digit more is ten times as much and the digit; the digits are those from 0 to 9, and a
/// number is written without a leading zero.
pub proof fn law_decimal(n: int, d: int)
    requires
        0 <= n,
        0 <= d < 10,
    ensures
        n > 0 ==> decimal(10 * n + d) == decimal(n) + decimal(d),
        decimal(d).len() == 1,
        decimal(d)[0] == "0123456789"@[d],
        n > 0 ==> decimal(n)[0] != '0',
    decreases n,
{
    reveal_strlit("0123456789");
    assert(decimal(d) =~= seq![digit_char(d)]);
    if n > 0 {
        assert((10 * n + d) / 10 == n && (10 * n + d) % 10 == d);
        assert(decimal(10 * n + d) =~= decimal(n) + decimal(d));
        if n >= 10 {
            law_decimal(n / 10, n % 10);
            lemma_decimal_digits(n / 10);
        }
    }
}

/// A text is a number where it is digits, behind at most one plus. Nothing is none; anything
/// but a digit spoils it, as does what is more than the limit.
pub proof fn law_numbers(n: int, c: char, max: int)
    requires
        0 <= n <= max,
    ensures
        unsigned_value(Seq::empty(), max) == Err::<int, NumError>(NumError::Empty),
        unsigned_value(seq!['+'] + decimal(n), max) == Ok::<int, NumError>(n),
        unsigned_value(seq!['0'] + decimal(n), max) == Ok::<int, NumError>(n),
        !is_digit(c) ==> unsigned_value(decimal(n).push(c), max) == Err::<int, NumError>(
            NumError::InvalidDigit,
        ),
        unsigned_value(decimal(max + 1), max) == Err::<int, NumError>(NumError::TooLarge),
        unsigned_value(seq!['-'] + decimal(n), max) == Err::<int, NumError>(NumError::InvalidDigit),
        signed_value(seq!['-'] + decimal(n), max) == Ok::<int, NumError>(-n),
        signed_value(seq!['-'] + decimal(max + 2), max) == Err::<int, NumError>(NumError::TooSmall),
{
    let d = decimal(n);
    lemma_decimal_digits(n);
    lemma_decimal_roundtrip(n, max);
    lemma_decimal_roundtrip(n, max + 1);
    assert((seq!['+'] + d).drop_first() =~= d);
    lemma_zero_in_front(n, max);
    assert(is_digit(d[0]));
    assert(d.push(c).drop_last() =~= d);
    assert(d.push(c)[0] == d[0]);
    lemma_too_large(max + 1, max);
    lemma_decimal_digits(max + 1);
    assert(is_digit(decimal(max + 1)[0]));
    lemma_minus_spoils(d, max);
    assert((seq!['-'] + d).drop_first() =~= d);
    lemma_decimal_digits(max + 2);
    lemma_too_large(max + 2, max + 1);
    assert((seq!['-'] + decimal(max + 2)).drop_first() =~= decimal(max + 2));
}

proof fn lemma_zero_in_front(n: int, max: int)
    requires
        0 <= n <= max,
    ensures
        digits_value(seq!['0'] + decimal(n), max) == Ok::<int, NumError>(n),
    decreases n,
{
    let z = seq!['0'];
    assert(z.drop_last() =~= Seq::<char>::empty());
    assert(digits_value(z.drop_last(), max) == Ok::<int, NumError>(0));
    assert(digits_value(z, max) == Ok::<int, NumError>(0));
    if n < 10 {
        assert((z + decimal(n)).drop_last() =~= z);
        assert((z + decimal(n)).last() == digit_char(n));
    } else {
        lemma_zero_in_front(n / 10, max);
        assert((z + decimal(n)).drop_last() =~= z + decimal(n / 10));
        assert((z + decimal(n)).last() == digit_char(n % 10));
    }
}

proof fn lemma_too_large(n: int, max: int)
    requires
        0 <= max < n,
    ensures
        digits_value(decimal(n), max) == Err::<int, NumError>(NumError::TooLarge),
    decreases n,
{
    if n < 10 {
        assert(decimal(n).drop_last() =~= Seq::<char>::empty());
        assert(digits_value(decimal(n).drop_last(), max) == Ok::<int, NumError>(0));
        assert(decimal(n).last() == digit_char(n));
    } else {
        assert(decimal(n).drop_last() =~= decimal(n / 10));
        assert(decimal(n).last() == digit_char(n % 10));
        if n / 10 > max {
            lemma_too_large(n / 10, max);
        } else {
            lemma_decimal_roundtrip(n / 10, max);
        }
    }
}

proof fn lemma_minus_spoils(d: Seq<char>, max: int)
    requires
        0 <= max,
    ensures
        digits_value(seq!['-'] + d, max) == Err::<int, NumError>(NumError::InvalidDigit),
    decreases d.len(),
{
    let s = seq!['-'] + d;
    if d.len() == 0 {
        assert(s.drop_last() =~= Seq::<char>::empty());
        assert(digits_value(s.drop_last(), max) == Ok::<int, NumError>(0));
        assert(s.last() == '-');
    } else {
        lemma_minus_spoils(d.drop_last(), max);
        assert(s.drop_last() =~= seq!['-'] + d.drop_last());
    }
}

/// Of two texts that begin alike the one goes first whose next character is the smaller, or
/// that has none.
pub proof fn law_order(a: Seq<char>, x: char, y: char, s: Seq<char>, t: Seq<char>)
    ensures
        x < y ==> lex_lt(a.push(x) + s, a.push(y) + t),
        lex_lt(a, a.push(x) + s),
        !lex_lt(a.push(x) + s, a),
    decreases a.len(),
{
    let p = a.push(x) + s;
    let q = a.push(y) + t;
    if a.len() > 0 {
        let b = a.drop_first();
        law_order(b, x, y, s, t);
        assert(p.drop_first() =~= b.push(x) + s);
        assert(q.drop_first() =~= b.push(y) + t);
        assert(p[0] == a[0] && q[0] == a[0]);
    } else {
        assert(p[0] == x && q[0] == y);
    }
}

} // verus!
