use vstd::prelude::*;

verus! {

/// The ASCII upper-case form of a character; every other character is kept.
pub open spec fn upper_char(c: char) -> char {
    if 'a' <= c && c <= 'z' {
        ((c as u32) - 32) as char
    } else {
        c
    }
}

/// The character that stands for `c` in a macro name: ASCII letters are
/// upper-cased and `-` becomes `_`.
pub open spec fn macro_char(c: char) -> char {
    if c == '-' {
        '_'
    } else {
        upper_char(c)
    }
}

/// The canonical macro form of a name.
pub open spec fn canonical(s: Seq<char>) -> Seq<char> {
    s.map_values(|c: char| macro_char(c))
}

/// A string wrapped in ASCII double quotes.
pub open spec fn quoted(s: Seq<char>) -> Seq<char> {
    seq!['"'] + s + seq!['"']
}

/// Relies on `String::push`: appends one character at the end.
#[verifier::external_body]
pub(crate) fn push_char(s: &mut String, c: char)
    ensures
        final(s)@ == old(s)@.push(c),
{
    s.push(c)
}

fn macro_char_exec(c: char) -> (r: char)
    ensures
        r == macro_char(c),
{
    if c == '-' {
        '_'
    } else if 'a' <= c && c <= 'z' {
        ((c as u8) - 32) as char
    } else {
        c
    }
}

/// Wraps a string in ASCII double quotes, without escaping anything inside.
pub fn quote(s: &str) -> (r: String)
    ensures
        r@ == quoted(s@),
{
    proof {
        reveal_strlit("\"");
    }
    let mut r = String::from_str("\"");
    r.append(s);
    r.append("\"");
    r
}

/// Converts a name to its canonical macro form: ASCII letters are upper-cased
/// and every `-` becomes `_`; all other characters are kept.
pub fn to_macro_name(s: &str) -> (r: String)
    ensures
        r@ == canonical(s@),
{
    let n = s.unicode_len();
    let mut r = String::new();
    let mut i: usize = 0;
    while i < n
        invariant
            n == s@.len(),
            i <= n,
            r@ == canonical(s@.take(i as int)),
        decreases n - i,
    {
        let c = s.get_char(i);
        push_char(&mut r, macro_char_exec(c));
        i = i + 1;
        assert(s@.take(i as int) == s@.take(i - 1).push(c));
    }
    assert(s@.take(n as int) == s@);
    r
}

/// Converts a package name to the stem of its macro names.
pub fn normalize(s: &str) -> (r: String)
    ensures
        r@ == canonical(s@),
{
    to_macro_name(s)
}

/// Canonicalizing a name that is already canonical changes nothing.
pub proof fn lemma_canonical_idempotent(s: Seq<char>)
    ensures
        canonical(canonical(s)) == canonical(s),
{
    assert(canonical(canonical(s)) =~= canonical(s));
}

} // verus!
