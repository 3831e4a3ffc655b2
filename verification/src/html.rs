//! Text inside HTML.

use vstd::prelude::*;

use crate::text::chars_of;

verus! {

/// What stands for a character inside HTML.
pub open spec fn escaped_char(c: char) -> Seq<char> {
    if c == '&' {
        "&amp;"@
    } else if c == '<' {
        "&lt;"@
    } else if c == '>' {
        "&gt;"@
    } else if c == '"' {
        "&quot;"@
    } else {
        seq![c]
    }
}

/// A text with each of its characters as it stands inside HTML.
pub open spec fn escaped(s: Seq<char>) -> Seq<char>
    decreases s.len(),
{
    if s.len() == 0 {
        Seq::empty()
    } else {
        escaped(s.drop_last()) + escaped_char(s.last())
    }
}

/// A text with each of its characters as it stands inside HTML.
pub fn html_escape(s: &str) -> (r: String)
    ensures
        r@ == escaped(s@),
{
    let cs = chars_of(s);
    let mut out = String::new();
    for i in 0..cs.len()
        invariant
            cs@ == s@,
            out@ == escaped(s@.take(i as int)),
    {
        let c = cs[i];
        proof {
            let t = s@.take(i + 1);
            assert(t.drop_last() =~= s@.take(i as int));
            assert(t.last() == c);
        }
        if c == '&' {
            out.append("&amp;");
        } else if c == '<' {
            out.append("&lt;");
        } else if c == '>' {
            out.append("&gt;");
        } else if c == '"' {
            out.append("&quot;");
        } else {
            out.push(c);
            assert(out@ =~= escaped(s@.take(i as int)) + seq![c]);
        }
    }
    assert(s@.take(s@.len() as int) =~= s@);
    out
}

/// Whether a text is free of the characters that open or close a tag or an
/// attribute.
pub open spec fn is_inert(s: Seq<char>) -> bool {
    forall|i: int| 0 <= i < s.len() ==> s[i] != '<' && s[i] != '>' && s[i] != '"'
}

proof fn lemma_escaped_char(c: char)
    ensures
        is_inert(escaped_char(c)),
        escaped_char(c).len() > 0,
{
    reveal_strlit("&amp;");
    reveal_strlit("&lt;");
    reveal_strlit("&gt;");
    reveal_strlit("&quot;");
}

/// An escaped text holds none of `<`, `>` and `"`.
pub proof fn law_escaped_text_is_inert(s: Seq<char>)
    ensures
        is_inert(escaped(s)),
    decreases s.len(),
{
    if s.len() > 0 {
        law_escaped_text_is_inert(s.drop_last());
        lemma_escaped_char(s.last());
    }
}

/// Escaping two texts one after the other is escaping their concatenation.
pub proof fn law_escape_distributes(a: Seq<char>, b: Seq<char>)
    ensures
        escaped(a + b) == escaped(a) + escaped(b),
    decreases b.len(),
{
    if b.len() == 0 {
        assert(a + b =~= a);
        assert(escaped(a) + escaped(b) =~= escaped(a));
    } else {
        assert((a + b).drop_last() =~= a + b.drop_last());
        law_escape_distributes(a, b.drop_last());
        assert(escaped(a + b) =~= escaped(a) + escaped(b));
    }
}

/// The character that the beginning of an escaped text stands for, and how many
/// characters it takes.
pub open spec fn unescaped_char(s: Seq<char>) -> (char, int) {
    if s.len() >= 5 && s.take(5) == "&amp;"@ {
        ('&', 5)
    } else if s.len() >= 4 && s.take(4) == "&lt;"@ {
        ('<', 4)
    } else if s.len() >= 4 && s.take(4) == "&gt;"@ {
        ('>', 4)
    } else if s.len() >= 6 && s.take(6) == "&quot;"@ {
        ('"', 6)
    } else {
        (s[0], 1)
    }
}

/// A text with its four character references read.
pub open spec fn unescaped(s: Seq<char>) -> Seq<char>
    decreases s.len(),
{
    if s.len() == 0 {
        Seq::empty()
    } else {
        seq![unescaped_char(s).0] + unescaped(s.skip(unescaped_char(s).1))
    }
}

proof fn lemma_unescape_first(c: char, rest: Seq<char>)
    ensures
        unescaped_char(escaped_char(c) + rest) == (c, escaped_char(c).len() as int),
        (escaped_char(c) + rest).skip(escaped_char(c).len() as int) == rest,
{
    reveal_strlit("&amp;");
    reveal_strlit("&lt;");
    reveal_strlit("&gt;");
    reveal_strlit("&quot;");
    let s = escaped_char(c) + rest;
    assert(s.skip(escaped_char(c).len() as int) =~= rest);
    if c == '&' {
        assert(s.take(5) =~= "&amp;"@);
    } else if c == '<' {
        assert(s.take(4) =~= "&lt;"@);
        assert(s[1] == 'l');
        assert(s.len() >= 5 ==> s.take(5)[1] == 'l');
    } else if c == '>' {
        assert(s.take(4) =~= "&gt;"@);
        assert(s.len() >= 5 ==> s.take(5)[1] == 'g');
        assert(s.take(4)[1] == 'g');
    } else if c == '"' {
        assert(s.take(6) =~= "&quot;"@);
        assert(s.take(5)[1] == 'q');
        assert(s.take(4)[1] == 'q');
    } else {
        assert(s[0] == c);
        assert(s.len() >= 5 ==> s.take(5)[0] == c);
        assert(s.len() >= 4 ==> s.take(4)[0] == c);
        assert(s.len() >= 6 ==> s.take(6)[0] == c);
    }
}

/// Reading the references of an escaped text gives the text back.
pub proof fn law_unescape_undoes_escape(s: Seq<char>)
    ensures
        unescaped(escaped(s)) == s,
    decreases s.len(),
{
    if s.len() > 0 {
        let head = seq![s[0]];
        let rest = s.drop_first();
        assert(s =~= head + rest);
        law_escape_distributes(head, rest);
        assert(escaped(head.drop_last()) =~= Seq::<char>::empty());
        assert(escaped(head) =~= escaped_char(s[0]));
        lemma_escaped_char(s[0]);
        lemma_unescape_first(s[0], escaped(rest));
        law_unescape_undoes_escape(rest);
        assert(unescaped(escaped(s)) =~= s);
    }
}

/// A text without the four characters stands inside HTML as it is.
pub proof fn law_plain_text_is_not_escaped(s: Seq<char>)
    requires
        forall|i: int|
            0 <= i < s.len() ==> (#[trigger] s[i]) != '&' && s[i] != '<' && s[i] != '>' && s[i]
                != '"',
    ensures
        escaped(s) == s,
    decreases s.len(),
{
    if s.len() > 0 {
        let t = s.drop_last();
        assert forall|i: int| 0 <= i < t.len() implies (#[trigger] t[i]) != '&' && t[i] != '<'
            && t[i] != '>' && t[i] != '"' by {
            assert(t[i] == s[i]);
        }
        law_plain_text_is_not_escaped(t);
        assert(s[s.len() - 1] == s.last());
        assert(escaped(s) =~= s);
    } else {
        assert(escaped(s) =~= s);
    }
}

/// The four characters that HTML reserves stand as their names, and every other
/// character as itself.
pub proof fn law_reserved_characters_are_named(c: char)
    ensures
        c == '&' ==> escaped(seq![c]) == seq!['&', 'a', 'm', 'p', ';'],
        c == '<' ==> escaped(seq![c]) == seq!['&', 'l', 't', ';'],
        c == '>' ==> escaped(seq![c]) == seq!['&', 'g', 't', ';'],
        c == '"' ==> escaped(seq![c]) == seq!['&', 'q', 'u', 'o', 't', ';'],
        c != '&' && c != '<' && c != '>' && c != '"' ==> escaped(seq![c]) == seq![c],
{
    let one = seq![c];
    assert(one.drop_last() =~= Seq::<char>::empty());
    assert(one.last() == c);
    assert(escaped(one.drop_last()) =~= Seq::<char>::empty());
    assert(escaped(one) =~= escaped_char(c));
    reveal_strlit("&amp;");
    reveal_strlit("&lt;");
    reveal_strlit("&gt;");
    reveal_strlit("&quot;");
    assert("&amp;"@ =~= seq!['&', 'a', 'm', 'p', ';']);
    assert("&lt;"@ =~= seq!['&', 'l', 't', ';']);
    assert("&gt;"@ =~= seq!['&', 'g', 't', ';']);
    assert("&quot;"@ =~= seq!['&', 'q', 'u', 'o', 't', ';']);
}

} // verus!
