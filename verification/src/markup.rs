use vstd::prelude::*;

verus! {

/// The characters that escaping writes for one input character.
pub open spec fn escape_char(c: char) -> Seq<char> {
    if c == '&' {
        seq!['&', 'a', 'm', 'p', ';']
    } else if c == '<' {
        seq!['&', 'l', 't', ';']
    } else if c == '>' {
        seq!['&', 'g', 't', ';']
    } else if c == '"' {
        seq!['&', 'q', 'u', 'o', 't', ';']
    } else {
        seq![c]
    }
}

/// The HTML escaping of a character sequence: each character replaced by
/// its `escape_char`, in order.
pub open spec fn escape_seq(s: Seq<char>) -> Seq<char>
    decreases s.len(),
{
    if s.len() == 0 {
        Seq::empty()
    } else {
        escape_seq(s.drop_last()) + escape_char(s.last())
    }
}

/// The characters that escaping rewrites.
pub open spec fn is_special(c: char) -> bool {
    c == '&' || c == '<' || c == '>' || c == '"'
}

/// Reads escaped text back: each entity that escaping writes becomes the
/// character it stands for; every other character stands for itself.
pub open spec fn unescape_seq(s: Seq<char>) -> Seq<char>
    decreases s.len(),
{
    if s.len() == 0 {
        Seq::empty()
    } else if s.len() >= 5 && s.take(5) == seq!['&', 'a', 'm', 'p', ';'] {
        seq!['&'] + unescape_seq(s.skip(5))
    } else if s.len() >= 4 && s.take(4) == seq!['&', 'l', 't', ';'] {
        seq!['<'] + unescape_seq(s.skip(4))
    } else if s.len() >= 4 && s.take(4) == seq!['&', 'g', 't', ';'] {
        seq!['>'] + unescape_seq(s.skip(4))
    } else if s.len() >= 6 && s.take(6) == seq!['&', 'q', 'u', 'o', 't', ';'] {
        seq!['"'] + unescape_seq(s.skip(6))
    } else {
        seq![s[0]] + unescape_seq(s.skip(1))
    }
}

/// Escaping a concatenation is the concatenation of the escapings.
pub proof fn lemma_escape_concat(a: Seq<char>, b: Seq<char>)
    ensures
        escape_seq(a + b) == escape_seq(a) + escape_seq(b),
    decreases b.len(),
{
    if b.len() == 0 {
        assert(a + b =~= a);
        assert(escape_seq(b) =~= Seq::<char>::empty());
        assert(escape_seq(a) + escape_seq(b) =~= escape_seq(a));
    } else {
        lemma_escape_concat(a, b.drop_last());
        assert((a + b).drop_last() =~= a + b.drop_last());
        assert((a + b).last() == b.last());
        assert(escape_seq(a) + escape_seq(b) =~= escape_seq(a) + escape_seq(b.drop_last())
            + escape_char(b.last()));
    }
}

/// Escaping unfolds from the front as well as from the back.
pub proof fn lemma_escape_first(s: Seq<char>)
    requires
        s.len() > 0,
    ensures
        escape_seq(s) == escape_char(s[0]) + escape_seq(s.skip(1)),
{
    lemma_escape_concat(seq![s[0]], s.skip(1));
    assert(seq![s[0]] + s.skip(1) =~= s);
    assert(seq![s[0]].drop_last() =~= Seq::<char>::empty());
    assert(escape_seq(Seq::<char>::empty()) =~= Seq::<char>::empty());
    assert(seq![s[0]].last() == s[0]);
    assert(escape_seq(seq![s[0]]) =~= escape_seq(Seq::<char>::empty()) + escape_char(s[0]));
}

/// Escaped text holds no `<`, `>` or `"`: it can stand neither for a tag
/// nor end a double-quoted attribute value.
pub proof fn lemma_escape_no_markup(s: Seq<char>)
    ensures
        forall|i: int|
            0 <= i < escape_seq(s).len() ==> {
                let c = #[trigger] escape_seq(s)[i];
                c != '<' && c != '>' && c != '"'
            },
    decreases s.len(),
{
    if s.len() > 0 {
        lemma_escape_no_markup(s.drop_last());
        let e = escape_seq(s.drop_last());
        let t = escape_char(s.last());
        assert forall|i: int| 0 <= i < escape_seq(s).len() implies {
            let c = #[trigger] escape_seq(s)[i];
            c != '<' && c != '>' && c != '"'
        } by {
            if i >= e.len() {
                assert(escape_seq(s)[i] == t[i - e.len()]);
            } else {
                assert(escape_seq(s)[i] == e[i]);
            }
        }
    }
}

/// Text without any of `&`, `<`, `>`, `"` is left as it is.
pub proof fn lemma_escape_plain(s: Seq<char>)
    requires
        forall|i: int| 0 <= i < s.len() ==> !is_special(#[trigger] s[i]),
    ensures
        escape_seq(s) == s,
    decreases s.len(),
{
    if s.len() > 0 {
        lemma_escape_plain(s.drop_last());
        assert(!is_special(s[s.len() - 1]));
        assert(s.drop_last().push(s.last()) =~= s);
    }
}

/// Unescaping gives back what was escaped.
pub proof fn lemma_unescape_escape(s: Seq<char>)
    ensures
        unescape_seq(escape_seq(s)) == s,
    decreases s.len(),
{
    if s.len() == 0 {
        assert(escape_seq(s) =~= Seq::<char>::empty());
    } else {
        lemma_escape_first(s);
        lemma_unescape_escape(s.skip(1));
        let c = s[0];
        let rest = escape_seq(s.skip(1));
        let e = escape_seq(s);
        let k = escape_char(c).len() as int;
        assert(e.skip(k) =~= rest);
        assert(e.take(k) =~= escape_char(c));
        if c == '&' {
            assert(unescape_seq(e) == seq!['&'] + unescape_seq(rest));
        } else if c == '<' {
            assert(!(e.len() >= 5 && e.take(5) == seq!['&', 'a', 'm', 'p', ';'])) by {
                assert(e[1] == 'l');
                if e.len() >= 5 {
                    assert(e.take(5)[1] == 'l');
                    assert(seq!['&', 'a', 'm', 'p', ';'][1] == 'a');
                }
            }
            assert(unescape_seq(e) == seq!['<'] + unescape_seq(rest));
        } else if c == '>' {
            assert(!(e.len() >= 5 && e.take(5) == seq!['&', 'a', 'm', 'p', ';'])) by {
                assert(e[1] == 'g');
                if e.len() >= 5 {
                    assert(e.take(5)[1] == 'g');
                    assert(seq!['&', 'a', 'm', 'p', ';'][1] == 'a');
                }
            }
            assert(!(e.len() >= 4 && e.take(4) == seq!['&', 'l', 't', ';'])) by {
                assert(e.take(4)[1] == 'g');
            }
            assert(unescape_seq(e) == seq!['>'] + unescape_seq(rest));
        } else if c == '"' {
            assert(!(e.len() >= 5 && e.take(5) == seq!['&', 'a', 'm', 'p', ';'])) by {
                assert(e.take(5)[1] == 'q');
            }
            assert(!(e.len() >= 4 && e.take(4) == seq!['&', 'l', 't', ';'])) by {
                assert(e.take(4)[1] == 'q');
            }
            assert(!(e.len() >= 4 && e.take(4) == seq!['&', 'g', 't', ';'])) by {
                assert(e.take(4)[1] == 'q');
            }
            assert(unescape_seq(e) == seq!['"'] + unescape_seq(rest));
        } else {
            assert(e[0] == c);
            assert(e.len() >= 5 ==> e.take(5)[0] == c);
            assert(e.len() >= 4 ==> e.take(4)[0] == c);
            assert(e.len() >= 6 ==> e.take(6)[0] == c);
            assert(unescape_seq(e) == seq![c] + unescape_seq(rest));
        }
        assert(seq![c] + s.skip(1) =~= s);
    }
}

/// Escaping is injective: different texts never escape to the same text.
pub proof fn lemma_escape_injective(a: Seq<char>, b: Seq<char>)
    requires
        escape_seq(a) == escape_seq(b),
    ensures
        a == b,
{
    lemma_unescape_escape(a);
    lemma_unescape_escape(b);
}

/// Trusted: std's `String::push` appends the one character to the string,
/// as its documentation says.
pub assume_specification[ String::push ](s: &mut String, ch: char)
    ensures
        final(s)@ == old(s)@.push(ch),
;

/// Trusted: std's `String::push_str` appends the given string slice to the
/// string, as its documentation says.
pub assume_specification[ String::push_str ](s: &mut String, string: &str)
    ensures
        final(s)@ == old(s)@ + string@,
;

/// Escape HTML string to output.
pub fn escape_to_string(input: &str, output: &mut String)
    ensures
        final(output)@ == old(output)@ + escape_seq(input@),
{
    let ghost start = output@;
    broadcast use vstd::string::group_string_axioms;
    for c in it: input.chars()
        invariant
            it.seq() == input@,
            output@ == start + escape_seq(input@.take(it.index() as int)),
    {
        let ghost before = output@;
        let ghost i = it.index();
        assert(c == input@[i]);
        if c == '&' {
            output.push_str("&amp;");
        } else if c == '<' {
            output.push_str("&lt;");
        } else if c == '>' {
            output.push_str("&gt;");
        } else if c == '"' {
            output.push_str("&quot;");
        } else {
            output.push(c);
        }
        proof {
            reveal_strlit("&amp;");
            reveal_strlit("&lt;");
            reveal_strlit("&gt;");
            reveal_strlit("&quot;");
            assert(input@.take(i + 1).drop_last() =~= input@.take(i as int));
            assert(output@ =~= before + escape_char(c));
        }
    }
    assert(input@.take(input@.len() as int) =~= input@);
}

/// Escape HTML string.
pub fn escape(input: &str) -> (res: String)
    ensures
        res@ == escape_seq(input@),
{
    let mut s = String::new();
    escape_to_string(input, &mut s);
    s
}

/// A pre-escaped string.
#[derive(Debug, Clone, Copy, PartialEq, Eq, Default)]
pub struct PreEscaped<T>(pub T);

/// A pre-escaped owned string.
pub type Markup = PreEscaped<String>;

} // verus!
