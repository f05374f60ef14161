//! The frontend dummy's page: an embedded template with the HTML-escaped app
//! name substituted, rendered in memory.
use vstd::prelude::*;
use crate::text::{
    to_chars, from_chars, owned, push_str, push_char, starts_with, starts_with_chars, trim,
    trim_chars, slice_chars,
};

verus! {

/// The index page; every `{{APP_NAME}}` is replaced by the escaped app name.
pub const TEMPLATE: &'static str = "<!doctype html>
<html lang=\"en\">
<head>
  <meta charset=\"utf-8\">
  <title>{{APP_NAME}} \u{2014} stubby</title>
  <link rel=\"stylesheet\" href=\"/style.css\">
</head>
<body>
  <main>
    <span class=\"badge\">dummy mode</span>
    <h1>{{APP_NAME}}</h1>
    <p>This service is running on the <strong>stubby</strong> placeholder image.
       The real implementation isn't deployed yet.</p>
    <footer>
      <a href=\"https://github.com/kauemendes/stubby\">github.com/kauemendes/stubby</a>
    </footer>
  </main>
</body>
</html>
";

/// The stylesheet, served verbatim at `GET /style.css`.
pub const STYLE_CSS: &'static str = ":root { color-scheme: light dark; font-family: system-ui, sans-serif; }
body { max-width: 720px; margin: 4rem auto; padding: 0 1rem; line-height: 1.6; }
.badge { display:inline-block; padding: 0.15rem 0.5rem; border-radius: 4px;
         background: #ffec99; color: #333; font-size: 0.8rem; }
h1 { margin-top: 0.5rem; }
footer { margin-top: 3rem; font-size: 0.85rem; opacity: 0.7; }
";

/// How one character appears in the page: `& < > \" '` become entities.
pub open spec fn escape_html_char(c: char) -> Seq<char> {
    if c == '<' {
        seq!['&', 'l', 't', ';']
    } else if c == '>' {
        seq!['&', 'g', 't', ';']
    } else if c == '&' {
        seq!['&', 'a', 'm', 'p', ';']
    } else if c == '"' {
        seq!['&', 'q', 'u', 'o', 't', ';']
    } else if c == '\'' {
        seq!['&', '#', 'x', '2', '7', ';']
    } else {
        seq![c]
    }
}

pub open spec fn escape_html(s: Seq<char>) -> Seq<char>
    decreases s.len(),
{
    if s.len() == 0 {
        Seq::empty()
    } else {
        escape_html(s.drop_last()) + escape_html_char(s.last())
    }
}

/// `str::replace(pat, rep)`: every non-overlapping occurrence of a non-empty
/// `pat`, left to right, replaced by `rep`.
pub open spec fn replace_all(s: Seq<char>, pat: Seq<char>, rep: Seq<char>) -> Seq<char>
    decreases s.len(),
{
    if s.len() == 0 {
        Seq::empty()
    } else if pat.len() > 0 && starts_with(s, pat) {
        rep + replace_all(s.skip(pat.len() as int), pat, rep)
    } else {
        seq![s[0]] + replace_all(s.drop_first(), pat, rep)
    }
}

/// The page for `app_name`.
pub open spec fn spec_render_index(app_name: Seq<char>) -> Seq<char> {
    replace_all(TEMPLATE@, "{{APP_NAME}}"@, escape_html(app_name))
}

/// HTML-escapes `s` with the set `& < > " '`.
pub fn html_escape(s: &str) -> (r: String)
    ensures
        r@ == escape_html(s@),
{
    let mut out = String::new();
    let ghost start = out@;
    for c in it: s.chars()
        invariant
            it.seq() == s@,
            out@ == escape_html(it.seq().take(it.index() as int)),
    {
        let ghost before = out@;
        if c == '<' {
            push_str(&mut out, "&lt;");
        } else if c == '>' {
            push_str(&mut out, "&gt;");
        } else if c == '&' {
            push_str(&mut out, "&amp;");
        } else if c == '"' {
            push_str(&mut out, "&quot;");
        } else if c == '\'' {
            push_str(&mut out, "&#x27;");
        } else {
            push_char(&mut out, c);
        }
        proof {
            reveal_strlit("&lt;");
            reveal_strlit("&gt;");
            reveal_strlit("&amp;");
            reveal_strlit("&quot;");
            reveal_strlit("&#x27;");
            let k = it.index() as int;
            assert(it.seq().take(k + 1).drop_last() =~= it.seq().take(k));
            assert(it.seq().take(k + 1).last() == c);
            assert(out@ =~= before + escape_html_char(c));
        }
    }
    assert(s@.take(s@.len() as int) =~= s@);
    out
}

/// Whether `p` occurs in `s` at index `i`.
fn matches_at(s: &[char], i: usize, p: &[char]) -> (b: bool)
    requires
        i <= s@.len(),
    ensures
        b == starts_with(s@.skip(i as int), p@),
{
    let rest = slice_chars(s, i, s.len());
    assert(rest@ =~= s@.skip(i as int));
    starts_with_chars(rest.as_slice(), p)
}

/// `s` with each occurrence of the non-empty `pat` replaced by `rep`.
fn replace_chars(s: &[char], pat: &[char], rep: &str) -> (r: String)
    requires
        pat@.len() > 0,
    ensures
        r@ == replace_all(s@, pat@, rep@),
{
    let mut out = String::new();
    let mut i: usize = 0;
    assert(s@.skip(0) =~= s@);
    while i < s.len()
        invariant
            i <= s@.len(),
            pat@.len() > 0,
            out@ + replace_all(s@.skip(i as int), pat@, rep@) == replace_all(s@, pat@, rep@),
        decreases s@.len() - i,
    {
        let ghost before = out@;
        if matches_at(s, i, pat) {
            push_str(&mut out, rep);
            proof {
                assert(s@.skip(i as int).skip(pat@.len() as int) =~= s@.skip(i + pat@.len()));
                assert(out@ + replace_all(s@.skip(i + pat@.len()), pat@, rep@) =~= before + replace_all(
                    s@.skip(i as int),
                    pat@,
                    rep@,
                ));
            }
            i = i + pat.len();
        } else {
            push_char(&mut out, s[i]);
            proof {
                assert(s@.skip(i as int).drop_first() =~= s@.skip(i + 1));
                assert(s@.skip(i as int)[0] == s@[i as int]);
                assert(out@ + replace_all(s@.skip(i + 1), pat@, rep@) =~= before + replace_all(
                    s@.skip(i as int),
                    pat@,
                    rep@,
                ));
            }
            i = i + 1;
        }
    }
    assert(s@.skip(i as int) =~= Seq::<char>::empty());
    assert(out@ + Seq::<char>::empty() =~= out@);
    out
}

/// Renders the index page: the app name, HTML-escaped, in place of every
/// `{{APP_NAME}}` of [`TEMPLATE`].
pub fn render_index(app_name: &str) -> (r: String)
    ensures
        r@ == spec_render_index(app_name@),
{
    let escaped = html_escape(app_name);
    let t = to_chars(TEMPLATE);
    let p = to_chars("{{APP_NAME}}");
    proof {
        reveal_strlit("{{APP_NAME}}");
    }
    replace_chars(t.as_slice(), p.as_slice(), escaped.as_str())
}

/// The app name for a dummy: the value of `STUBBY_APP_NAME` trimmed, or
/// `stubby` when it is unset or blank.
pub open spec fn app_name_or_default(raw: Option<Seq<char>>) -> Seq<char> {
    match raw {
        Some(s) => if trim(s).len() > 0 {
            trim(s)
        } else {
            "stubby"@
        },
        None => "stubby"@,
    }
}

/// `STUBBY_APP_NAME` resolved as [`app_name_or_default`] says.
pub fn app_name_from(raw: Option<String>) -> (r: String)
    ensures
        r@ == app_name_or_default(match raw {
            Some(s) => Some(s@),
            None => None,
        }),
{
    match raw {
        Some(s) => {
            let t = trim_chars(to_chars(s.as_str()).as_slice());
            if t.len() > 0 {
                from_chars(t.as_slice())
            } else {
                owned("stubby")
            }
        },
        None => owned("stubby"),
    }
}

/// Per-process configuration of the frontend dummy.
#[derive(Clone, Debug)]
pub struct FrontendConfig {
    /// Name substituted into the page, from `STUBBY_APP_NAME`.
    pub app_name: String,
}

impl FrontendConfig {
    /// Builds the configuration from the value of `STUBBY_APP_NAME`
    /// (`None` when unset).
    pub fn from_env(app_name: Option<String>) -> (c: FrontendConfig)
        ensures
            c.app_name@ == app_name_or_default(match app_name {
                Some(s) => Some(s@),
                None => None,
            }),
    {
        FrontendConfig { app_name: app_name_from(app_name) }
    }
}

/// The listen address: `full` (the `STUBBY_FRONTEND_LISTEN` value) trimmed if
/// non-blank, else `0.0.0.0:<port>` with `port` (the `STUBBY_PORT` value)
/// trimmed if non-blank, else `0.0.0.0:<default_port>`.
pub open spec fn spec_listen_addr(full: Option<Seq<char>>, port: Option<Seq<char>>, default_port: Seq<char>) -> Seq<char> {
    if full is Some && trim(full->0).len() > 0 {
        trim(full->0)
    } else if port is Some && trim(port->0).len() > 0 {
        "0.0.0.0:"@ + trim(port->0)
    } else {
        "0.0.0.0:"@ + default_port
    }
}

/// Resolves a dummy's listen address as [`spec_listen_addr`] says.
pub fn listen_addr(full: Option<String>, port: Option<String>, default_port: &str) -> (r: String)
    ensures
        r@ == spec_listen_addr(
            match full {
                Some(s) => Some(s@),
                None => None,
            },
            match port {
                Some(s) => Some(s@),
                None => None,
            },
            default_port@,
        ),
{
    if let Some(f) = &full {
        let t = trim_chars(to_chars(f.as_str()).as_slice());
        if t.len() > 0 {
            return from_chars(t.as_slice());
        }
    }
    let mut out = owned("0.0.0.0:");
    if let Some(p) = &port {
        let t = trim_chars(to_chars(p.as_str()).as_slice());
        if t.len() > 0 {
            let ts = from_chars(t.as_slice());
            push_str(&mut out, ts.as_str());
            return out;
        }
    }
    push_str(&mut out, default_port);
    out
}

/// The escaped app name can carry no markup: none of `< > " '` survives
/// escaping, so the name cannot open a tag or leave an attribute.
pub proof fn law_escape_has_no_markup(s: Seq<char>)
    ensures
        forall|k: int|
            0 <= k < escape_html(s).len() ==> {
                let c = #[trigger] escape_html(s)[k];
                c != '<' && c != '>' && c != '"' && c != '\''
            },
    decreases s.len(),
{
    if s.len() > 0 {
        law_escape_has_no_markup(s.drop_last());
        let a = escape_html(s.drop_last());
        let b = escape_html_char(s.last());
        assert forall|k: int| 0 <= k < escape_html(s).len() implies {
            let c = #[trigger] escape_html(s)[k];
            c != '<' && c != '>' && c != '"' && c != '\''
        } by {
            assert(escape_html(s) == a + b);
            if k < a.len() {
                assert(escape_html(s)[k] == a[k]);
            } else {
                assert(escape_html(s)[k] == b[k - a.len()]);
            }
        }
    }
}

/// A name with none of `& < > " '` is shown as it is.
pub proof fn law_plain_name_unchanged(s: Seq<char>)
    requires
        forall|k: int|
            0 <= k < s.len() ==> {
                let c = #[trigger] s[k];
                c != '&' && c != '<' && c != '>' && c != '"' && c != '\''
            },
    ensures
        escape_html(s) == s,
    decreases s.len(),
{
    if s.len() > 0 {
        let t = s.drop_last();
        assert forall|k: int| 0 <= k < t.len() implies {
            let c = #[trigger] t[k];
            c != '&' && c != '<' && c != '>' && c != '"' && c != '\''
        } by {
            assert(t[k] == s[k]);
        }
        law_plain_name_unchanged(t);
        let c = s[s.len() - 1];
        assert(s.last() == c);
        assert(escape_html(s) =~= t.push(c));
        assert(t.push(c) =~= s);
    }
}

/// Reads the entities that [`escape_html`] writes back as their characters;
/// everything else stands for itself.
pub open spec fn unescape_html(t: Seq<char>) -> Seq<char>
    decreases t.len(),
{
    if t.len() == 0 {
        Seq::empty()
    } else if starts_with(t, seq!['&', 'l', 't', ';']) {
        seq!['<'] + unescape_html(t.skip(4))
    } else if starts_with(t, seq!['&', 'g', 't', ';']) {
        seq!['>'] + unescape_html(t.skip(4))
    } else if starts_with(t, seq!['&', 'a', 'm', 'p', ';']) {
        seq!['&'] + unescape_html(t.skip(5))
    } else if starts_with(t, seq!['&', 'q', 'u', 'o', 't', ';']) {
        seq!['"'] + unescape_html(t.skip(6))
    } else if starts_with(t, seq!['&', '#', 'x', '2', '7', ';']) {
        seq!['\''] + unescape_html(t.skip(6))
    } else {
        seq![t[0]] + unescape_html(t.drop_first())
    }
}

/// Escaping works character by character: the escape of a concatenation is
/// the concatenation of the escapes.
pub proof fn law_escape_concat(a: Seq<char>, b: Seq<char>)
    ensures
        escape_html(a + b) == escape_html(a) + escape_html(b),
    decreases b.len(),
{
    if b.len() == 0 {
        assert(a + b =~= a);
        assert(escape_html(a) + escape_html(b) =~= escape_html(a));
    } else {
        law_escape_concat(a, b.drop_last());
        assert((a + b).drop_last() =~= a + b.drop_last());
        assert((a + b).last() == b.last());
        assert(escape_html(a + b) == escape_html(a + b.drop_last()) + escape_html_char(b.last()));
        assert(escape_html(a) + escape_html(b) =~= escape_html(a) + escape_html(b.drop_last()) + escape_html_char(
            b.last(),
        ));
    }
}

/// One escaped character, followed by anything, reads back as that character
/// followed by what the rest reads back as.
proof fn lemma_unescape_char(c: char, rest: Seq<char>)
    ensures
        unescape_html(escape_html_char(c) + rest) == seq![c] + unescape_html(rest),
{
    let e = escape_html_char(c);
    let t = e + rest;
    assert(t[0] == e[0]);
    if c == '<' || c == '>' || c == '&' || c == '"' || c == '\'' {
        let n = e.len() as int;
        assert(t.take(n) =~= e);
        assert(t.skip(n) =~= rest);
        assert(t.take(4)[1] == e[1]);
        if c != '<' && c != '>' {
            assert(t.take(4)[1] != 'l' && t.take(4)[1] != 'g');
        }
        if c == '"' || c == '\'' {
            assert(t.take(5)[1] != 'a');
        }
        if c == '\'' {
            assert(t.take(6)[1] != 'q');
        }
    } else {
        assert(t[0] == c);
        if t.len() >= 4 {
            assert(t.take(4)[0] == c);
        }
        if t.len() >= 5 {
            assert(t.take(5)[0] == c);
        }
        if t.len() >= 6 {
            assert(t.take(6)[0] == c);
        }
        assert(t.drop_first() =~= rest);
    }
}

/// Escaping loses nothing: reading the entities back gives the name again.
pub proof fn law_escape_reads_back(s: Seq<char>)
    ensures
        unescape_html(escape_html(s)) == s,
    decreases s.len(),
{
    if s.len() > 0 {
        let c = s[0];
        let r = s.drop_first();
        assert(s =~= seq![c] + r);
        law_escape_concat(seq![c], r);
        assert(seq![c].drop_last() =~= Seq::<char>::empty());
        assert(seq![c].last() == c);
        assert(escape_html(Seq::<char>::empty()) == Seq::<char>::empty());
        assert(escape_html(seq![c]) == escape_html(Seq::<char>::empty()) + escape_html_char(c));
        assert(escape_html(seq![c]) =~= escape_html_char(c));
        lemma_unescape_char(c, escape_html(r));
        law_escape_reads_back(r);
    }
}

} // verus!
