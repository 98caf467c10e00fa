use vstd::prelude::*;

use crate::markup::Markup;
use crate::node::str_equal;

verus! {

/// The kinds of build asset that are served with a content type.
#[derive(Debug, Clone, Copy, PartialEq, Eq)]
pub enum AssetType {
    Html,
    Css,
    JavaScript,
    Wasm,
}

/// The asset kind that a file extension names, if any.
pub open spec fn asset_type_spec(ext: Option<Seq<char>>) -> Option<AssetType> {
    match ext {
        Some(e) => if e == seq!['h', 't', 'm', 'l'] {
            Some(AssetType::Html)
        } else if e == seq!['c', 's', 's'] {
            Some(AssetType::Css)
        } else if e == seq!['j', 's'] {
            Some(AssetType::JavaScript)
        } else if e == seq!['w', 'a', 's', 'm'] {
            Some(AssetType::Wasm)
        } else {
            None
        },
        None => None,
    }
}

/// The kind of an asset file from its extension: `html`, `css`, `js` and
/// `wasm` are served with their content type, anything else without one.
pub fn asset_type(ext: Option<&str>) -> (res: Option<AssetType>)
    ensures
        res == asset_type_spec(
            match ext {
                Some(e) => Some(e@),
                None => None,
            },
        ),
{
    proof {
        reveal_strlit("html");
        reveal_strlit("css");
        reveal_strlit("js");
        reveal_strlit("wasm");
        assert("html"@ =~= seq!['h', 't', 'm', 'l']);
        assert("css"@ =~= seq!['c', 's', 's']);
        assert("js"@ =~= seq!['j', 's']);
        assert("wasm"@ =~= seq!['w', 'a', 's', 'm']);
    }
    match ext {
        Some(e) => {
            if str_equal(e, "html") {
                Some(AssetType::Html)
            } else if str_equal(e, "css") {
                Some(AssetType::Css)
            } else if str_equal(e, "js") {
                Some(AssetType::JavaScript)
            } else if str_equal(e, "wasm") {
                Some(AssetType::Wasm)
            } else {
                None
            }
        },
        None => None,
    }
}

/// Each of the four extensions names its own kind, exactly: an extension
/// gives a kind only when it is `html`, `css`, `js` or `wasm` spelled out
/// in full, and any other extension, or none, gives no kind.
pub proof fn lemma_asset_type_exact(ext: Option<Seq<char>>)
    ensures
        asset_type_spec(ext) == Some(AssetType::Html) <==> ext == Some(seq!['h', 't', 'm', 'l']),
        asset_type_spec(ext) == Some(AssetType::Css) <==> ext == Some(seq!['c', 's', 's']),
        asset_type_spec(ext) == Some(AssetType::JavaScript) <==> ext == Some(seq!['j', 's']),
        asset_type_spec(ext) == Some(AssetType::Wasm) <==> ext == Some(seq!['w', 'a', 's', 'm']),
        asset_type_spec(ext) is None <==> !(ext == Some(seq!['h', 't', 'm', 'l']) || ext == Some(
            seq!['c', 's', 's'],
        ) || ext == Some(seq!['j', 's']) || ext == Some(seq!['w', 'a', 's', 'm'])),
{
    if let Some(e) = ext {
        let html = seq!['h', 't', 'm', 'l'];
        let css = seq!['c', 's', 's'];
        let js = seq!['j', 's'];
        let wasm = seq!['w', 'a', 's', 'm'];
        assert(html != css) by { assert(html.len() != css.len()); }
        assert(html != js) by { assert(html.len() != js.len()); }
        assert(html != wasm) by { assert(html[0] != wasm[0]); }
        assert(css != js) by { assert(css.len() != js.len()); }
        assert(css != wasm) by { assert(css.len() != wasm.len()); }
        assert(js != wasm) by { assert(js.len() != wasm.len()); }
    }
}

/// The page template, which is served through the page handler rather than
/// as an asset of its own.
pub open spec fn index_html() -> Seq<char> {
    seq!['i', 'n', 'd', 'e', 'x', '.', 'h', 't', 'm', 'l']
}

/// The route that serves the asset at `path`: `/` followed by the path,
/// or `None` for the page template `index.html`.
pub fn asset_route(path: &str) -> (res: Option<String>)
    ensures
        path@ == index_html() ==> res is None,
        path@ != index_html() ==> (res matches Some(route) && route@ == seq!['/'] + path@),
{
    proof {
        reveal_strlit("index.html");
        reveal_strlit("/");
        assert("index.html"@ =~= index_html());
        assert("/"@ =~= seq!['/']);
    }
    if str_equal(path, "index.html") {
        None
    } else {
        let mut route = String::new();
        route.push_str("/");
        route.push_str(path);
        Some(route)
    }
}

/// Every occurrence of `from` in `s`, scanning from the left and without
/// overlaps, replaced by `to`. An empty `from` matches before every
/// character and at the end.
pub open spec fn replace_seq(s: Seq<char>, from: Seq<char>, to: Seq<char>) -> Seq<char>
    decreases s.len(),
{
    if from.len() == 0 {
        if s.len() == 0 {
            to
        } else {
            to + seq![s[0]] + replace_seq(s.skip(1), from, to)
        }
    } else if s.len() == 0 {
        Seq::empty()
    } else if s.len() >= from.len() && s.take(from.len() as int) == from {
        to + replace_seq(s.skip(from.len() as int), from, to)
    } else {
        seq![s[0]] + replace_seq(s.skip(1), from, to)
    }
}

/// Whether `pattern` occurs anywhere in `s`.
pub open spec fn occurs_in(s: Seq<char>, pattern: Seq<char>) -> bool {
    exists|i: int| 0 <= i && i + pattern.len() <= s.len() && #[trigger] s.subrange(i, i + pattern.len()) == pattern
}

/// A non-empty pattern at the front is replaced, whatever it is replaced
/// by (the empty text included), and the rest is handled on its own.
pub proof fn lemma_replace_front(s: Seq<char>, from: Seq<char>, to: Seq<char>)
    requires
        from.len() > 0,
    ensures
        replace_seq(from + s, from, to) == to + replace_seq(s, from, to),
{
    let t = from + s;
    assert(t.take(from.len() as int) =~= from);
    assert(t.skip(from.len() as int) =~= s);
}

/// Text in which a non-empty pattern does not occur is left unchanged.
pub proof fn lemma_replace_absent(s: Seq<char>, from: Seq<char>, to: Seq<char>)
    requires
        from.len() > 0,
        !occurs_in(s, from),
    ensures
        replace_seq(s, from, to) == s,
    decreases s.len(),
{
    if s.len() > 0 {
        let rest = s.skip(1);
        if s.len() >= from.len() {
            assert(s.take(from.len() as int) =~= s.subrange(0int, 0int + from.len()));
            assert(s.subrange(0int, 0int + from.len()) != from);
        }
        assert(!occurs_in(rest, from)) by {
            if occurs_in(rest, from) {
                let i = choose|i: int|
                    0 <= i && i + from.len() <= rest.len() && #[trigger] rest.subrange(
                        i,
                        i + from.len(),
                    ) == from;
                assert(s.subrange(i + 1, i + 1 + from.len()) =~= rest.subrange(i, i + from.len()));
            }
        }
        lemma_replace_absent(rest, from, to);
        assert(seq![s[0]] + rest =~= s);
    }
}

/// A marker is replaced where it first occurs: when `from` first occurs in
/// `a + from + b` right after `a`, the result is `a`, then `to`, then `b`
/// with its own markers replaced, whatever `to` is (the empty text
/// included).
pub proof fn lemma_replace_first_marker(a: Seq<char>, from: Seq<char>, to: Seq<char>, b: Seq<char>)
    requires
        from.len() > 0,
        forall|i: int|
            0 <= i < a.len() ==> #[trigger] (a + from + b).subrange(i, i + from.len()) != from,
    ensures
        replace_seq(a + from + b, from, to) == a + to + replace_seq(b, from, to),
    decreases a.len(),
{
    if a.len() == 0 {
        assert(a + from + b =~= from + b);
        lemma_replace_front(b, from, to);
        assert(a + to + replace_seq(b, from, to) =~= to + replace_seq(b, from, to));
    } else {
        let t = a + from + b;
        let a1 = a.skip(1);
        assert(t.take(from.len() as int) =~= t.subrange(0, from.len() as int));
        assert(t.subrange(0int, 0int + from.len()) != from);
        assert(t.skip(1) =~= a1 + from + b);
        assert forall|i: int| 0 <= i < a1.len() implies #[trigger] (a1 + from + b).subrange(
            i,
            i + from.len(),
        ) != from by {
            assert((a1 + from + b).subrange(i, i + from.len()) =~= t.subrange(
                i + 1,
                i + 1 + from.len(),
            ));
        }
        lemma_replace_first_marker(a1, from, to, b);
        assert(t[0] == a[0]);
        assert(seq![a[0]] + (a1 + to + replace_seq(b, from, to)) =~= a + to + replace_seq(
            b,
            from,
            to,
        ));
    }
}

/// The characters of a string.
fn str_chars(s: &str) -> (res: Vec<char>)
    ensures
        res@ == s@,
{
    let mut res: Vec<char> = Vec::new();
    broadcast use vstd::string::group_string_axioms;
    for c in it: s.chars()
        invariant
            it.seq() == s@,
            res@ == s@.take(it.index() as int),
    {
        let ghost i = it.index();
        assert(c == s@[i]);
        res.push(c);
        assert(res@ =~= s@.take(i + 1));
    }
    assert(s@.take(s@.len() as int) =~= s@);
    res
}

/// Whether `pattern` occurs in `chars` at position `at`.
fn occurs_at(chars: &Vec<char>, at: usize, pattern: &Vec<char>) -> (res: bool)
    requires
        at <= chars@.len(),
    ensures
        res == (chars@.len() - at >= pattern@.len() && chars@.skip(at as int).take(
            pattern@.len() as int,
        ) == pattern@),
{
    let m = pattern.len();
    if chars.len() - at < m {
        return false;
    }
    let mut j: usize = 0;
    while j < m
        invariant
            m == pattern@.len(),
            at + m <= chars.len(),
            j <= m,
            forall|k: int| 0 <= k < j ==> chars@[at + k] == pattern@[k],
        decreases m - j,
    {
        if chars[at + j] != pattern[j] {
            assert(chars@.skip(at as int).take(m as int)[j as int] != pattern@[j as int]);
            return false;
        }
        j = j + 1;
    }
    assert(chars@.skip(at as int).take(m as int) =~= pattern@);
    true
}

/// Replaces every occurrence of `from` in `s` by `to`, as `str::replace`
/// does: from the left, without overlaps.
pub fn replace_all(s: &str, from: &str, to: &str) -> (res: String)
    ensures
        res@ == replace_seq(s@, from@, to@),
{
    let chars = str_chars(s);
    let pattern = str_chars(from);
    let n = chars.len();
    let m = pattern.len();
    let mut res = String::new();
    let mut i: usize = 0;
    assert(s@.skip(0) =~= s@);
    assert(res@ + replace_seq(s@, from@, to@) =~= replace_seq(s@, from@, to@));
    while i < n
        invariant
            chars@ == s@,
            pattern@ == from@,
            n == chars@.len(),
            m == pattern@.len(),
            i <= n,
            res@ + replace_seq(s@.skip(i as int), from@, to@) == replace_seq(s@, from@, to@),
        decreases n - i,
    {
        let ghost rest = s@.skip(i as int);
        let ghost before = res@;
        if m == 0 {
            res.push_str(to);
            res.push(chars[i]);
            assert(rest.skip(1) =~= s@.skip(i + 1));
            assert(rest[0] == chars@[i as int]);
            assert(res@ + replace_seq(s@.skip(i + 1), from@, to@) =~= before + replace_seq(
                rest,
                from@,
                to@,
            ));
            i = i + 1;
        } else if occurs_at(&chars, i, &pattern) {
            res.push_str(to);
            assert(rest.skip(m as int) =~= s@.skip(i + m));
            assert(res@ + replace_seq(s@.skip(i + m), from@, to@) =~= before + replace_seq(
                rest,
                from@,
                to@,
            ));
            i = i + m;
        } else {
            res.push(chars[i]);
            assert(rest.skip(1) =~= s@.skip(i + 1));
            assert(rest[0] == chars@[i as int]);
            assert(res@ + replace_seq(s@.skip(i + 1), from@, to@) =~= before + replace_seq(
                rest,
                from@,
                to@,
            ));
            i = i + 1;
        }
    }
    assert(s@.skip(n as int) =~= Seq::<char>::empty());
    if m == 0 {
        res.push_str(to);
    }
    assert(res@ =~= replace_seq(s@, from@, to@));
    res
}

/// The page served for a request: the template with its header marker
/// replaced by the header markup and then its body marker replaced by the
/// body markup.
pub fn fill_template(
    template: &str,
    header_marker: &str,
    header: &Markup,
    body_marker: &str,
    body: &Markup,
) -> (res: String)
    ensures
        res@ == replace_seq(
            replace_seq(template@, header_marker@, header.0@),
            body_marker@,
            body.0@,
        ),
{
    let with_header = replace_all(template, header_marker, header.0.as_str());
    replace_all(with_header.as_str(), body_marker, body.0.as_str())
}

} // verus!
