//! Character and string helpers shared by the instruction parser and the
//! package engine: ASCII lowercasing, the case/separator-insensitive
//! "flattening" of element names, whitespace trimming, and lexicographic
//! ordering of names and paths.

use vstd::prelude::*;
use vstd::string::StrSliceExecFns;
use vstd::string::StringExecFns;

verus! {

/// Lowercases one ASCII letter; every other character is unchanged.
pub open spec fn lower_char_spec(c: char) -> char {
    match c {
        'A' => 'a',
        'B' => 'b',
        'C' => 'c',
        'D' => 'd',
        'E' => 'e',
        'F' => 'f',
        'G' => 'g',
        'H' => 'h',
        'I' => 'i',
        'J' => 'j',
        'K' => 'k',
        'L' => 'l',
        'M' => 'm',
        'N' => 'n',
        'O' => 'o',
        'P' => 'p',
        'Q' => 'q',
        'R' => 'r',
        'S' => 's',
        'T' => 't',
        'U' => 'u',
        'V' => 'v',
        'W' => 'w',
        'X' => 'x',
        'Y' => 'y',
        'Z' => 'z',
        _ => c,
    }
}

/// Executable ASCII lowercasing, proved equal to `lower_char_spec`.
pub fn lower_char(c: char) -> (r: char)
    ensures
        r == lower_char_spec(c),
{
    match c {
        'A' => 'a',
        'B' => 'b',
        'C' => 'c',
        'D' => 'd',
        'E' => 'e',
        'F' => 'f',
        'G' => 'g',
        'H' => 'h',
        'I' => 'i',
        'J' => 'j',
        'K' => 'k',
        'L' => 'l',
        'M' => 'm',
        'N' => 'n',
        'O' => 'o',
        'P' => 'p',
        'Q' => 'q',
        'R' => 'r',
        'S' => 's',
        'T' => 't',
        'U' => 'u',
        'V' => 'v',
        'W' => 'w',
        'X' => 'x',
        'Y' => 'y',
        'Z' => 'z',
        _ => c,
    }
}

/// A separator character that name flattening removes.
pub open spec fn is_sep(c: char) -> bool {
    c == '_' || c == '-'
}

/// The case/separator-insensitive "flat" form of a name: separators are
/// removed and ASCII letters are lowercased.
pub open spec fn flat_of(s: Seq<char>) -> Seq<char>
    decreases s.len(),
{
    if s.len() == 0 {
        Seq::empty()
    } else if is_sep(s[0]) {
        flat_of(s.drop_first())
    } else {
        seq![lower_char_spec(s[0])] + flat_of(s.drop_first())
    }
}

pub proof fn lemma_flat_of_push(s: Seq<char>, c: char)
    ensures
        flat_of(s.push(c)) == if is_sep(c) {
            flat_of(s)
        } else {
            flat_of(s) + seq![lower_char_spec(c)]
        },
    decreases s.len(),
{
    if s.len() == 0 {
        reveal_with_fuel(flat_of, 2);
        assert(s.push(c)[0] == c);
        assert(s.push(c).drop_first() =~= Seq::<char>::empty());
        if !is_sep(c) {
            assert(flat_of(s.push(c)) =~= flat_of(s) + seq![lower_char_spec(c)]);
        }
    } else {
        assert(s.push(c)[0] == s[0]);
        assert(s.push(c).drop_first() =~= s.drop_first().push(c));
        lemma_flat_of_push(s.drop_first(), c);
        if !is_sep(c) && !is_sep(s[0]) {
            assert(seq![lower_char_spec(s[0])] + (flat_of(s.drop_first()) + seq![
                lower_char_spec(c),
            ]) =~= (seq![lower_char_spec(s[0])] + flat_of(s.drop_first())) + seq![
                lower_char_spec(c),
            ]);
        }
    }
}

/// A character that flattening keeps unchanged.
pub open spec fn flat_fixed_char(c: char) -> bool {
    !is_sep(c) && lower_char_spec(c) == c
}

/// Flattening leaves a name alone when every character is already flat.
pub proof fn lemma_flat_of_fixed(s: Seq<char>)
    requires
        forall|i: int| 0 <= i < s.len() ==> flat_fixed_char(#[trigger] s[i]),
    ensures
        flat_of(s) == s,
    decreases s.len(),
{
    if s.len() > 0 {
        lemma_flat_of_fixed(s.drop_first());
        assert(seq![lower_char_spec(s[0])] + s.drop_first() =~= s);
    }
}

/// Executable name flattening, proved equal to `flat_of`.
pub fn flatten(s: &str) -> (r: String)
    ensures
        r@ == flat_of(s@),
{
    let n = s.unicode_len();
    let mut r = String::new();
    for i in 0..n
        invariant
            n == s@.len(),
            r@ == flat_of(s@.subrange(0, i as int)),
    {
        let c = s.get_char(i);
        proof {
            lemma_flat_of_push(s@.subrange(0, i as int), s@[i as int]);
            assert(s@.subrange(0, i + 1) =~= s@.subrange(0, i as int).push(s@[i as int]));
        }
        if !(c == '_' || c == '-') {
            let lc = lower_char(c);
            let cs = char_str(lc);
            r.append(cs.as_str());
        }
    }
    proof {
        assert(s@.subrange(0, n as int) =~= s@);
    }
    r
}

/// Relies on `char::to_string` from std: the returned string holds exactly
/// this one character.
#[verifier::external_body]
pub fn char_str(c: char) -> (r: String)
    ensures
        r@ == seq![c],
{
    c.to_string()
}

/// String equality on views, checked character by character.
pub fn str_eq(a: &str, b: &str) -> (r: bool)
    ensures
        r == (a@ == b@),
{
    let la = a.unicode_len();
    let lb = b.unicode_len();
    if la != lb {
        return false;
    }
    for i in 0..la
        invariant
            la == a@.len(),
            la == b@.len(),
            forall|j: int| 0 <= j < i ==> a@[j] == b@[j],
    {
        if a.get_char(i) != b.get_char(i) {
            return false;
        }
    }
    proof {
        assert(a@ =~= b@);
    }
    true
}

/// Lexicographic order on character sequences by unicode scalar value.
pub open spec fn lex_le(a: Seq<char>, b: Seq<char>) -> bool
    decreases a.len(),
{
    if a.len() == 0 {
        true
    } else if b.len() == 0 {
        false
    } else if (a[0] as u32) < (b[0] as u32) {
        true
    } else if (b[0] as u32) < (a[0] as u32) {
        false
    } else {
        lex_le(a.drop_first(), b.drop_first())
    }
}

/// Two characters with the same unicode scalar value are the same character.
proof fn lemma_char_eq(c1: char, c2: char)
    requires
        c1 as u32 == c2 as u32,
    ensures
        c1 == c2,
{
}

pub proof fn lemma_lex_le_total(a: Seq<char>, b: Seq<char>)
    ensures
        lex_le(a, b) || lex_le(b, a),
    decreases a.len(),
{
    if a.len() > 0 && b.len() > 0 && (a[0] as u32) == (b[0] as u32) {
        lemma_lex_le_total(a.drop_first(), b.drop_first());
    }
}

pub proof fn lemma_lex_le_antisymmetric(a: Seq<char>, b: Seq<char>)
    requires
        lex_le(a, b),
        lex_le(b, a),
    ensures
        a == b,
    decreases a.len(),
{
    if a.len() == 0 {
        assert(b.len() == 0);
        assert(a =~= b);
    } else {
        assert(b.len() > 0);
        lemma_char_eq(a[0], b[0]);
        lemma_lex_le_antisymmetric(a.drop_first(), b.drop_first());
        assert(a =~= seq![a[0]] + a.drop_first());
        assert(b =~= seq![b[0]] + b.drop_first());
    }
}

pub proof fn lemma_lex_le_transitive(a: Seq<char>, b: Seq<char>, c: Seq<char>)
    requires
        lex_le(a, b),
        lex_le(b, c),
    ensures
        lex_le(a, c),
    decreases a.len(),
{
    if a.len() > 0 && b.len() > 0 && c.len() > 0 {
        if (a[0] as u32) == (b[0] as u32) && (b[0] as u32) == (c[0] as u32) {
            lemma_lex_le_transitive(a.drop_first(), b.drop_first(), c.drop_first());
        }
    }
}

/// Executable lexicographic comparison, proved equal to `lex_le`.
pub fn str_le(a: &str, b: &str) -> (r: bool)
    ensures
        r == lex_le(a@, b@),
{
    let la = a.unicode_len();
    let lb = b.unicode_len();
    let mut i: usize = 0;
    proof {
        assert(a@.skip(0) =~= a@);
        assert(b@.skip(0) =~= b@);
    }
    loop
        invariant
            la == a@.len(),
            lb == b@.len(),
            i <= la,
            i <= lb,
            lex_le(a@, b@) == lex_le(a@.skip(i as int), b@.skip(i as int)),
        decreases la - i,
    {
        proof {
            assert(a@.skip(i as int).len() == la - i);
            assert(b@.skip(i as int).len() == lb - i);
        }
        if i == la {
            return true;
        }
        if i == lb {
            return false;
        }
        let ca = a.get_char(i);
        let cb = b.get_char(i);
        proof {
            assert(a@.skip(i as int)[0] == a@[i as int]);
            assert(b@.skip(i as int)[0] == b@[i as int]);
        }
        if (ca as u32) < (cb as u32) {
            return true;
        }
        if (cb as u32) < (ca as u32) {
            return false;
        }
        proof {
            assert(a@.skip(i as int).drop_first() =~= a@.skip(i + 1));
            assert(b@.skip(i as int).drop_first() =~= b@.skip(i + 1));
        }
        i = i + 1;
    }
}

/// An ASCII whitespace character, as the instruction reader trims it.
pub open spec fn is_ws(c: char) -> bool {
    c == ' ' || c == '\t' || c == '\r' || c == '\n'
}

/// The longest prefix of whitespace characters.
pub open spec fn ws_prefix_len(s: Seq<char>) -> int
    decreases s.len(),
{
    if s.len() == 0 || !is_ws(s[0]) {
        0
    } else {
        1 + ws_prefix_len(s.drop_first())
    }
}

/// The view of a string with leading and trailing whitespace removed.
pub open spec fn trim_spec(s: Seq<char>) -> Seq<char> {
    trim_end_spec(s.skip(ws_prefix_len(s)))
}

/// The longest suffix of whitespace characters removed.
pub open spec fn trim_end_spec(s: Seq<char>) -> Seq<char>
    decreases s.len(),
{
    if s.len() == 0 {
        s
    } else if is_ws(s[s.len() - 1]) {
        trim_end_spec(s.drop_last())
    } else {
        s
    }
}

/// Trims leading and trailing ASCII whitespace, as the instruction reader
/// does for text between tags.
pub fn trim_ws(s: &str) -> (r: String)
    ensures
        r@ == trim_spec(s@),
{
    let n = s.unicode_len();
    let mut start: usize = 0;
    while start < n && is_ws_exec(s.get_char(start))
        invariant
            n == s@.len(),
            start <= n,
            forall|i: int| 0 <= i < start ==> is_ws(#[trigger] s@[i]),
        decreases n - start,
    {
        start = start + 1;
    }
    proof {
        lemma_ws_prefix_len_is(s@, start as int);
        assert(s@.skip(start as int).subrange(0, (n - start) as int) =~= s@.skip(start as int));
    }
    let mut end: usize = n;
    while end > start && is_ws_exec(s.get_char(end - 1))
        invariant
            n == s@.len(),
            start <= end <= n,
            trim_end_spec(s@.skip(start as int)) == trim_end_spec(
                s@.skip(start as int).subrange(0, end - start),
            ),
        decreases end,
    {
        proof {
            let t = s@.skip(start as int).subrange(0, end - start);
            assert(t[t.len() - 1] == s@[end - 1]);
            assert(t.drop_last() =~= s@.skip(start as int).subrange(0, end - 1 - start));
        }
        end = end - 1;
    }
    proof {
        let t = s@.skip(start as int).subrange(0, end - start);
        if end > start {
            assert(t[t.len() - 1] == s@[end - 1]);
        }
        assert(trim_end_spec(t) == t);
    }
    let r = s.substring_char(start, end);
    proof {
        assert(s@.subrange(start as int, end as int) =~= s@.skip(start as int).subrange(
            0,
            end - start,
        ));
    }
    String::from_str(r)
}

/// Executable whitespace test, usable in place of `is_ws`.
pub fn is_ws_exec(c: char) -> (r: bool)
    ensures
        r == is_ws(c),
{
    c == ' ' || c == '\t' || c == '\r' || c == '\n'
}

proof fn lemma_ws_prefix_len_is(s: Seq<char>, k: int)
    requires
        0 <= k <= s.len(),
        forall|i: int| 0 <= i < k ==> is_ws(#[trigger] s[i]),
        k < s.len() ==> !is_ws(s[k]),
    ensures
        ws_prefix_len(s) == k,
    decreases s.len(),
{
    if s.len() == 0 {
    } else if k == 0 {
    } else {
        assert(is_ws(s[0]));
        let t = s.drop_first();
        assert forall|i: int| 0 <= i < k - 1 implies is_ws(#[trigger] t[i]) by {
            assert(t[i] == s[i + 1]);
        }
        if k - 1 < t.len() {
            assert(t[k - 1] == s[k]);
        }
        lemma_ws_prefix_len_is(t, k - 1);
    }
}

} // verus!
