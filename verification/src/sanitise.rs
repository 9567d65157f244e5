use vstd::prelude::*;

verus! {

/// What one character of the input becomes in the escaped text.
pub open spec fn escape_char(c: char) -> Seq<char> {
    if c == '\\' {
        seq!['\\', '\\']
    } else if c == '"' {
        seq!['\\', '"']
    } else {
        seq![c]
    }
}

/// The text `s` with every backslash and every double quote preceded by a backslash.
pub open spec fn c_escape_spec(s: Seq<char>) -> Seq<char>
    decreases s.len(),
{
    if s.len() == 0 {
        seq![]
    } else {
        c_escape_spec(s.drop_last()) + escape_char(s.last())
    }
}

/// Escape text for insertion into a C string literal: `\` becomes `\\` and `"` becomes `\"`.
pub fn c_escape(input: &str) -> (r: String)
    ensures
        r@ == c_escape_spec(input@),
{
    broadcast use vstd::string::group_string_axioms;
    let mut out = String::new();
    for c in it: input.chars()
        invariant
            it.seq() == input@,
            out@ == c_escape_spec(input@.take(it.index())),
    {
        assert(input@.take(it.index() + 1).drop_last() =~= input@.take(it.index()));
        if c == '\\' {
            out.push('\\');
            out.push('\\');
        } else if c == '"' {
            out.push('\\');
            out.push('"');
        } else {
            out.push(c);
        }
    }
    assert(input@.take(input@.len() as int) =~= input@);
    out
}


/// How a C compiler reads the body of a string literal back, for the two escapes
/// that [`c_escape`] writes: a backslash stands for the character after it.
pub open spec fn c_unescape_spec(s: Seq<char>) -> Seq<char>
    decreases s.len(),
{
    if s.len() == 0 {
        seq![]
    } else if s[0] == '\\' && s.len() >= 2 {
        seq![s[1]] + c_unescape_spec(s.skip(2))
    } else {
        seq![s[0]] + c_unescape_spec(s.skip(1))
    }
}

/// Escaping distributes over concatenation.
pub proof fn lemma_escape_concat(a: Seq<char>, b: Seq<char>)
    ensures
        c_escape_spec(a + b) == c_escape_spec(a) + c_escape_spec(b),
    decreases b.len(),
{
    if b.len() == 0 {
        assert(a + b =~= a);
        assert(c_escape_spec(a) + c_escape_spec(b) =~= c_escape_spec(a));
    } else {
        lemma_escape_concat(a, b.drop_last());
        assert((a + b).drop_last() =~= a + b.drop_last());
        assert((a + b).last() == b.last());
    }
}

/// Reading the escaped text of `s` back as a C string literal gives `s` again.
pub proof fn law_escape_roundtrip(s: Seq<char>)
    ensures
        c_unescape_spec(c_escape_spec(s)) == s,
    decreases s.len(),
{
    if s.len() == 0 {
        assert(c_escape_spec(s) =~= Seq::<char>::empty());
    } else {
        let c = s[0];
        let rest = s.skip(1);
        assert(s =~= seq![c] + rest);
        lemma_escape_concat(seq![c], rest);
        assert(seq![c].drop_last() =~= Seq::<char>::empty());
        assert(c_escape_spec(Seq::<char>::empty()) =~= Seq::<char>::empty());
        assert(seq![c].last() == c);
        assert(c_escape_spec(seq![c]) == c_escape_spec(seq![c].drop_last()) + escape_char(c));
        assert(c_escape_spec(seq![c]) =~= escape_char(c));
        let e = c_escape_spec(s);
        assert(e == escape_char(c) + c_escape_spec(rest));
        law_escape_roundtrip(rest);
        if c == '\\' || c == '"' {
            assert(e[0] == '\\' && e[1] == c);
            assert(e.skip(2) =~= c_escape_spec(rest));
        } else {
            assert(e[0] == c);
            assert(e.skip(1) =~= c_escape_spec(rest));
        }
        assert(c_unescape_spec(e) =~= seq![c] + rest);
    }
}

/// Escaping loses nothing: two texts with the same escaped text are equal.
pub proof fn law_escape_injective(a: Seq<char>, b: Seq<char>)
    requires
        c_escape_spec(a) == c_escape_spec(b),
    ensures
        a == b,
{
    law_escape_roundtrip(a);
    law_escape_roundtrip(b);
}

/// The escaped text holds no backslash or double quote that is not escaped:
/// every double quote comes right after a backslash.
pub proof fn law_escape_quotes_escaped(s: Seq<char>, k: int)
    requires
        0 <= k < c_escape_spec(s).len(),
        c_escape_spec(s)[k] == '"',
    ensures
        k > 0 && c_escape_spec(s)[k - 1] == '\\',
    decreases s.len(),
{
    if s.len() > 0 {
        let p = c_escape_spec(s.drop_last());
        if k < p.len() {
            law_escape_quotes_escaped(s.drop_last(), k);
        }
    }
}


/// Whether a character needs a backslash in a C string literal.
pub open spec fn needs_escape(c: char) -> bool {
    c == '\\' || c == '"'
}

/// How many characters of `s` need a backslash.
pub open spec fn escape_count(s: Seq<char>) -> nat
    decreases s.len(),
{
    if s.len() == 0 {
        0
    } else {
        escape_count(s.drop_last()) + if needs_escape(s.last()) { 1nat } else { 0nat }
    }
}

/// Text without a backslash or a double quote is left exactly as it is.
pub proof fn law_escape_plain_unchanged(s: Seq<char>)
    requires
        forall|i: int| 0 <= i < s.len() ==> !needs_escape(#[trigger] s[i]),
    ensures
        c_escape_spec(s) == s,
    decreases s.len(),
{
    if s.len() > 0 {
        law_escape_plain_unchanged(s.drop_last());
        assert(!needs_escape(s[s.len() - 1]));
        assert(s.drop_last().push(s.last()) =~= s);
    } else {
        assert(c_escape_spec(s) =~= s);
    }
}

/// Escaping adds exactly one character, a backslash, for each backslash and double
/// quote, and keeps every other character: the escaped text is as long as the text
/// plus the number of backslashes and double quotes in it.
pub proof fn law_escape_length(s: Seq<char>)
    ensures
        c_escape_spec(s).len() == s.len() + escape_count(s),
    decreases s.len(),
{
    if s.len() > 0 {
        law_escape_length(s.drop_last());
    }
}

/// A single character escapes to itself, or, when it is a backslash or a double
/// quote, to a backslash followed by itself.
pub proof fn law_escape_single(c: char)
    ensures
        !needs_escape(c) ==> c_escape_spec(seq![c]) == seq![c],
        needs_escape(c) ==> c_escape_spec(seq![c]) == seq!['\\', c],
{
    assert(seq![c].drop_last() =~= Seq::<char>::empty());
    assert(c_escape_spec(Seq::<char>::empty()) =~= Seq::<char>::empty());
    assert(seq![c].last() == c);
    assert(c_escape_spec(seq![c]) =~= escape_char(c));
}

} // verus!
