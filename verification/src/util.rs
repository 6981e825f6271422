//! Small text helpers shared by the tools.
use vstd::prelude::*;
use crate::text::{chars_of, string_push};

verus! {

broadcast use vstd::string::group_string_axioms;

/// The XML escape of one character.
pub open spec fn xml_char(c: char) -> Seq<char> {
    if c == '&' {
        "&amp;"@
    } else if c == '"' {
        "&quot;"@
    } else if c == '<' {
        "&lt;"@
    } else if c == '>' {
        "&gt;"@
    } else {
        seq![c]
    }
}

/// The XML escape of a text: `&`, `"`, `<` and `>` become entities.
pub open spec fn xml_escaped(s: Seq<char>) -> Seq<char>
    decreases s.len(),
{
    if s.len() == 0 {
        Seq::empty()
    } else {
        xml_escaped(s.drop_last()) + xml_char(s.last())
    }
}

/// Escapes a text for XML.
pub fn xml_escape(s: &str) -> (r: String)
    ensures
        r@ == xml_escaped(s@),
{
    let v = chars_of(s);
    let mut out = String::new();
    let mut i: usize = 0;
    while i < v.len()
        invariant
            i <= v@.len(),
            v@ == s@,
            out@ == xml_escaped(v@.take(i as int)),
        decreases v.len() - i,
    {
        let c = v[i];
        if c == '&' {
            out.append("&amp;");
        } else if c == '"' {
            out.append("&quot;");
        } else if c == '<' {
            out.append("&lt;");
        } else if c == '>' {
            out.append("&gt;");
        } else {
            string_push(&mut out, c);
        }
        proof {
            assert(v@.take(i + 1).drop_last() =~= v@.take(i as int));
        }
        i += 1;
    }
    proof {
        assert(v@.take(v@.len() as int) =~= v@);
    }
    out
}

/// The text an XML-escaped text stands for, read left to right: each of
/// the four entities back to its character, any other character as it is.
pub open spec fn xml_unescaped(t: Seq<char>) -> Seq<char>
    decreases t.len(),
{
    if t.len() == 0 {
        Seq::empty()
    } else if t.len() >= 5 && t.take(5) == "&amp;"@ {
        seq!['&'] + xml_unescaped(t.skip(5))
    } else if t.len() >= 6 && t.take(6) == "&quot;"@ {
        seq!['"'] + xml_unescaped(t.skip(6))
    } else if t.len() >= 4 && t.take(4) == "&lt;"@ {
        seq!['<'] + xml_unescaped(t.skip(4))
    } else if t.len() >= 4 && t.take(4) == "&gt;"@ {
        seq!['>'] + xml_unescaped(t.skip(4))
    } else {
        seq![t[0]] + xml_unescaped(t.skip(1))
    }
}

proof fn lemma_xml_escaped_front(c: char, s: Seq<char>)
    ensures
        xml_escaped(seq![c] + s) == xml_char(c) + xml_escaped(s),
    decreases s.len(),
{
    let t = seq![c] + s;
    if s.len() == 0 {
        assert(t =~= seq![c]);
        assert(t.drop_last() =~= Seq::<char>::empty());
        assert(xml_escaped(Seq::<char>::empty()) == Seq::<char>::empty());
        assert(xml_escaped(t) == xml_escaped(t.drop_last()) + xml_char(t.last()));
        assert(Seq::<char>::empty() + xml_char(c) =~= xml_char(c));
        assert(xml_char(c) + Seq::<char>::empty() =~= xml_char(c));
    } else {
        assert(t.drop_last() =~= seq![c] + s.drop_last());
        lemma_xml_escaped_front(c, s.drop_last());
        assert(t.last() == s.last());
        assert(xml_escaped(t) == xml_escaped(t.drop_last()) + xml_char(t.last()));
        assert(xml_escaped(s) == xml_escaped(s.drop_last()) + xml_char(s.last()));
        assert((xml_char(c) + xml_escaped(s.drop_last())) + xml_char(s.last()) =~= xml_char(c) + (
        xml_escaped(s.drop_last()) + xml_char(s.last())));
    }
}

proof fn lemma_xml_char_round_trip(c: char, e: Seq<char>)
    ensures
        xml_unescaped(xml_char(c) + e) == seq![c] + xml_unescaped(e),
{
    reveal_strlit("&amp;");
    reveal_strlit("&quot;");
    reveal_strlit("&lt;");
    reveal_strlit("&gt;");
    let t = xml_char(c) + e;
    if c == '&' {
        assert(t.take(5) =~= "&amp;"@);
        assert(t.skip(5) =~= e);
    } else if c == '"' {
        assert(t[1] == 'q');
        assert(t.take(5) != "&amp;"@) by {
            assert(t.take(5)[1] != "&amp;"@[1]);
        }
        assert(t.take(6) =~= "&quot;"@);
        assert(t.skip(6) =~= e);
    } else if c == '<' {
        assert(t[1] == 'l');
        assert(t.len() >= 5 ==> t.take(5) != "&amp;"@) by {
            if t.len() >= 5 {
                assert(t.take(5)[1] != "&amp;"@[1]);
            }
        }
        assert(t.len() >= 6 ==> t.take(6) != "&quot;"@) by {
            if t.len() >= 6 {
                assert(t.take(6)[1] != "&quot;"@[1]);
            }
        }
        assert(t.take(4) =~= "&lt;"@);
        assert(t.skip(4) =~= e);
    } else if c == '>' {
        assert(t[1] == 'g');
        assert(t.len() >= 5 ==> t.take(5) != "&amp;"@) by {
            if t.len() >= 5 {
                assert(t.take(5)[1] != "&amp;"@[1]);
            }
        }
        assert(t.len() >= 6 ==> t.take(6) != "&quot;"@) by {
            if t.len() >= 6 {
                assert(t.take(6)[1] != "&quot;"@[1]);
            }
        }
        assert(t.take(4) != "&lt;"@) by {
            assert(t.take(4)[1] != "&lt;"@[1]);
        }
        assert(t.take(4) =~= "&gt;"@);
        assert(t.skip(4) =~= e);
    } else {
        assert(t[0] == c);
        assert(t.len() >= 5 ==> t.take(5) != "&amp;"@) by {
            if t.len() >= 5 {
                assert(t.take(5)[0] != "&amp;"@[0]);
            }
        }
        assert(t.len() >= 6 ==> t.take(6) != "&quot;"@) by {
            if t.len() >= 6 {
                assert(t.take(6)[0] != "&quot;"@[0]);
            }
        }
        assert(t.len() >= 4 ==> t.take(4) != "&lt;"@) by {
            if t.len() >= 4 {
                assert(t.take(4)[0] != "&lt;"@[0]);
            }
        }
        assert(t.len() >= 4 ==> t.take(4) != "&gt;"@) by {
            if t.len() >= 4 {
                assert(t.take(4)[0] != "&gt;"@[0]);
            }
        }
        assert(t.skip(1) =~= e);
    }
}

/// Whether one of the four entities begins at position `i` of `t`.
pub open spec fn xml_entity_at(t: Seq<char>, i: int) -> bool {
    let r = t.skip(i);
    ||| r.len() >= 5 && r.take(5) == "&amp;"@
    ||| r.len() >= 6 && r.take(6) == "&quot;"@
    ||| r.len() >= 4 && r.take(4) == "&lt;"@
    ||| r.len() >= 4 && r.take(4) == "&gt;"@
}

/// Escaping a text for XML leaves none of `"`, `<` or `>` in it, every `&`
/// in it begins an entity, and reading the entities back gives the text
/// again.
pub proof fn lemma_xml_escape_round_trip(s: Seq<char>)
    ensures
        forall|i: int| 0 <= i < xml_escaped(s).len() ==> {
            let c = #[trigger] xml_escaped(s)[i];
            c != '"' && c != '<' && c != '>'
        },
        forall|i: int| 0 <= i < xml_escaped(s).len() && #[trigger] xml_escaped(s)[i] == '&'
            ==> xml_entity_at(xml_escaped(s), i),
        xml_unescaped(xml_escaped(s)) == s,
    decreases s.len(),
{
    reveal_strlit("&amp;");
    reveal_strlit("&quot;");
    reveal_strlit("&lt;");
    reveal_strlit("&gt;");
    if s.len() == 0 {
        assert(xml_unescaped(Seq::<char>::empty()) =~= Seq::<char>::empty());
    } else {
        let rest = s.skip(1);
        assert(s =~= seq![s[0]] + rest);
        lemma_xml_escaped_front(s[0], rest);
        lemma_xml_escape_round_trip(rest);
        lemma_xml_char_round_trip(s[0], xml_escaped(rest));
        let e = xml_escaped(s);
        let h = xml_char(s[0]);
        assert forall|i: int| 0 <= i < e.len() implies {
            let c = #[trigger] e[i];
            c != '"' && c != '<' && c != '>'
        } by {
            if i >= h.len() {
                assert(e[i] == xml_escaped(rest)[i - h.len()]);
            }
        }
        let er = xml_escaped(rest);
        assert forall|i: int| 0 <= i < e.len() && #[trigger] e[i] == '&' implies xml_entity_at(e, i) by {
            if i >= h.len() {
                assert(e[i] == er[i - h.len()]);
                assert(e.skip(i) =~= er.skip(i - h.len()));
            } else {
                assert(e[i] == h[i]);
                assert(i == 0);
                assert(e.skip(0) =~= e);
                assert(e.take(h.len() as int) =~= h);
            }
        }
        assert(seq![s[0]] + rest =~= s);
    }
}

} // verus!
