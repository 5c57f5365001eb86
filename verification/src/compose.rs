//! Text that the engine puts together: documents, style sheets and warnings.
use vstd::prelude::*;

use crate::text::{
    blank, chars_of, decimal, decimal_text, is_blank, join, join_strings, push_char, texts,
};

verus! {

broadcast use vstd::string::group_string_axioms;

// ---------------------------------------------------------------------------------------------
// Escaping
// ---------------------------------------------------------------------------------------------
/// A character as HTML text.
pub open spec fn escaped_char(c: char) -> Seq<char> {
    if c == '&' {
        "&amp;"@
    } else if c == '<' {
        "&lt;"@
    } else if c == '>' {
        "&gt;"@
    } else if c == '"' {
        "&quot;"@
    } else if c == '\'' {
        "&#39;"@
    } else {
        seq![c]
    }
}

/// A text as HTML text.
pub open spec fn escaped(s: Seq<char>) -> Seq<char>
    decreases s.len(),
{
    if s.len() == 0 {
        Seq::empty()
    } else {
        escaped(s.drop_last()) + escaped_char(s.last())
    }
}

/// Writes a text as HTML text.
pub fn escape_html_text(input: &str) -> (out: String)
    ensures
        out@ == escaped(input@),
{
    let chars = chars_of(input);
    let mut out = String::new();
    let mut i: usize = 0;
    while i < chars.len()
        invariant
            i <= chars@.len(),
            out@ == escaped(chars@.take(i as int)),
        decreases chars@.len() - i,
    {
        let c: char = chars[i];
        proof {
            assert(chars@.take(i + 1).drop_last() =~= chars@.take(i as int));
            assert(out@.push(c) =~= out@ + seq![c]);
        }
        if c == '&' {
            out.append("&amp;");
        } else if c == '<' {
            out.append("&lt;");
        } else if c == '>' {
            out.append("&gt;");
        } else if c == '"' {
            out.append("&quot;");
        } else if c == '\'' {
            out.append("&#39;");
        } else {
            push_char(&mut out, c);
        }
        i += 1;
    }
    proof {
        assert(chars@.take(i as int) =~= input@);
    }
    out
}

/// A character that could start or end markup or an attribute.
pub open spec fn is_markup(c: char) -> bool {
    c == '<' || c == '>' || c == '"' || c == '\''
}

/// Escaped text holds no character that could start or end markup or an attribute.
pub proof fn escaped_holds_no_markup(s: Seq<char>)
    ensures
        forall|i: int| 0 <= i < escaped(s).len() ==> !is_markup(#[trigger] escaped(s)[i]),
    decreases s.len(),
{
    if s.len() > 0 {
        escaped_holds_no_markup(s.drop_last());
        reveal_strlit("&amp;");
        reveal_strlit("&lt;");
        reveal_strlit("&gt;");
        reveal_strlit("&quot;");
        reveal_strlit("&#39;");
        let head = escaped(s.drop_last());
        let tail = escaped_char(s.last());
        assert(forall|i: int| 0 <= i < tail.len() ==> !is_markup(#[trigger] tail[i]));
        assert forall|i: int| 0 <= i < escaped(s).len() implies !is_markup(
            #[trigger] escaped(s)[i],
        ) by {
            if i < head.len() {
                assert(escaped(s)[i] == head[i]);
            } else {
                assert(escaped(s)[i] == tail[i - head.len()]);
            }
        }
    }
}

/// Text without special characters is its own HTML text.
pub proof fn plain_text_stays(s: Seq<char>)
    requires
        forall|i: int| 0 <= i < s.len() ==> !is_markup(#[trigger] s[i]) && s[i] != '&',
    ensures
        escaped(s) == s,
    decreases s.len(),
{
    if s.len() > 0 {
        assert forall|i: int| 0 <= i < s.drop_last().len() implies !is_markup(
            #[trigger] s.drop_last()[i],
        ) && s.drop_last()[i] != '&' by {
            assert(s[i] == s.drop_last()[i]);
        }
        plain_text_stays(s.drop_last());
        assert(s.last() == s[s.len() - 1]);
        assert(s.drop_last() + seq![s.last()] =~= s);
    }
}

// ---------------------------------------------------------------------------------------------
// Documents and style sheets
// ---------------------------------------------------------------------------------------------
/// A text if there is one, else another.
pub open spec fn or_else(value: Option<String>, other: Seq<char>) -> Seq<char> {
    match value {
        Some(s) => s@,
        None => other,
    }
}

/// A whole document around a body.
pub open spec fn document_html(
    lang: Option<String>,
    title: Option<String>,
    body: Seq<char>,
) -> Seq<char> {
    "<!doctype html><html lang=\""@ + escaped(or_else(lang, "en"@))
        + "\"><head><meta charset=\"utf-8\" /><meta name=\"viewport\" content=\"width=device-width, initial-scale=1\" /><title>"@
        + escaped(or_else(title, "fullbleed document"@)) + "</title></head><body>"@ + body
        + "</body></html>"@
}

/// Writes a whole document around a body.
pub fn compose_document(lang: &Option<String>, title: &Option<String>, body: &str) -> (out: String)
    ensures
        out@ == document_html(*lang, *title, body@),
{
    let lang_text = match lang {
        Some(s) => escape_html_text(s),
        None => escape_html_text("en"),
    };
    let title_text = match title {
        Some(s) => escape_html_text(s),
        None => escape_html_text("fullbleed document"),
    };
    let mut out = "<!doctype html><html lang=\"".to_owned();
    out.append(&lang_text);
    out.append(
        "\"><head><meta charset=\"utf-8\" /><meta name=\"viewport\" content=\"width=device-width, initial-scale=1\" /><title>",
    );
    out.append(&title_text);
    out.append("</title></head><body>");
    out.append(body);
    out.append("</body></html>");
    out
}

/// A document around a snippet that is drawn into a page.
pub open spec fn snippet_html(snippet: Seq<char>, transparent: bool) -> Seq<char> {
    "<!doctype html><html><body"@ + (if transparent {
        " style=\"background: transparent;\""@
    } else {
        ""@
    }) + ">"@ + snippet + "</body></html>"@
}

/// Writes a document around a snippet.
pub fn snippet_document(snippet: &str, transparent: bool) -> (out: String)
    ensures
        out@ == snippet_html(snippet@, transparent),
{
    let style = if transparent {
        " style=\"background: transparent;\""
    } else {
        ""
    };
    let mut out = "<!doctype html><html><body".to_owned();
    out.append(style);
    out.append(">");
    out.append(snippet);
    out.append("</body></html>");
    out
}

/// The style sheet of the assets before that of a document.
pub open spec fn merged_css(assets: Seq<char>, css: Seq<char>) -> Seq<char> {
    if assets.len() == 0 {
        css
    } else if is_blank(css) {
        assets
    } else {
        assets + "\n\n"@ + css
    }
}

/// Puts the style sheet of the assets before that of a document.
pub fn join_css(assets: &str, css: &str) -> (out: String)
    ensures
        out@ == merged_css(assets@, css@),
{
    if chars_of(assets).len() == 0 {
        css.to_owned()
    } else if blank(css) {
        assets.to_owned()
    } else {
        let mut out = assets.to_owned();
        out.append("\n\n");
        out.append(css);
        out
    }
}

/// Without a style sheet of its own a document has that of the assets, and without assets it has
/// its own.
pub proof fn css_has_an_identity(css: Seq<char>)
    ensures
        merged_css(Seq::empty(), css) == css,
        merged_css(css, Seq::empty()) == css,
{
    assert(is_blank(Seq::empty()));
}

// ---------------------------------------------------------------------------------------------
// Warnings about assets
// ---------------------------------------------------------------------------------------------
/// How many details a warning shows.
pub const SHOWN_DETAILS: usize = 3;

/// The details that a warning shows.
pub open spec fn shown_details(details: Seq<Seq<char>>) -> Seq<Seq<char>> {
    if details.len() > SHOWN_DETAILS {
        details.take(SHOWN_DETAILS as int).push("..."@)
    } else {
        details
    }
}

/// The details of a warning in brackets.
pub open spec fn detail_note(details: Seq<Seq<char>>) -> Seq<char> {
    if details.len() == 0 {
        ""@
    } else {
        " ("@ + join(shown_details(details), ", "@) + ")"@
    }
}

/// The line that warns of an asset.
pub open spec fn warning_text(
    doc_id: int,
    message: Seq<char>,
    details: Seq<Seq<char>>,
) -> Seq<char> {
    "[fullbleed][assets] doc "@ + decimal(doc_id as nat) + ": "@ + message + detail_note(details)
}

/// Writes the line that warns of an asset.
pub fn asset_warning_line(doc_id: usize, message: &str, details: &Vec<String>) -> (out: String)
    ensures
        out@ == warning_text(doc_id as int, message@, texts(details@)),
{
    let note = if details.len() == 0 {
        "".to_owned()
    } else {
        let mut shown: Vec<String> = Vec::new();
        let mut i: usize = 0;
        while i < details.len() && i < SHOWN_DETAILS
            invariant
                i <= details@.len(),
                i <= SHOWN_DETAILS,
                shown@.len() == i,
                forall|k: int| 0 <= k < i ==> (#[trigger] shown@[k])@ == details@[k]@,
            decreases details@.len() - i,
        {
            shown.push(details[i].clone());
            i += 1;
        }
        if details.len() > SHOWN_DETAILS {
            shown.push("...".to_owned());
        }
        proof {
            assert(texts(shown@) =~= shown_details(texts(details@)));
        }
        let mut text = " (".to_owned();
        text.append(&join_strings(&shown, ", "));
        text.append(")");
        text
    };
    let mut out = "[fullbleed][assets] doc ".to_owned();
    out.append(&decimal_text(doc_id as u64));
    out.append(": ");
    out.append(message);
    out.append(&note);
    out
}

/// A text with each quotation mark behind a backslash.
pub open spec fn quotes_escaped(s: Seq<char>) -> Seq<char>
    decreases s.len(),
{
    if s.len() == 0 {
        Seq::empty()
    } else if s.last() == '"' {
        quotes_escaped(s.drop_last()) + "\\\""@
    } else {
        quotes_escaped(s.drop_last()).push(s.last())
    }
}

/// Puts a backslash before each quotation mark.
pub fn escape_quotes(s: &str) -> (out: String)
    ensures
        out@ == quotes_escaped(s@),
{
    let chars = chars_of(s);
    let mut out = String::new();
    let mut i: usize = 0;
    while i < chars.len()
        invariant
            i <= chars@.len(),
            out@ == quotes_escaped(chars@.take(i as int)),
        decreases chars@.len() - i,
    {
        proof {
            assert(chars@.take(i + 1).drop_last() =~= chars@.take(i as int));
        }
        if chars[i] == '"' {
            out.append("\\\"");
        } else {
            push_char(&mut out, chars[i]);
        }
        i += 1;
    }
    proof {
        assert(chars@.take(i as int) =~= s@);
    }
    out
}

/// The details of a warning as a list of quoted texts.
pub open spec fn quoted_list(details: Seq<Seq<char>>) -> Seq<Seq<char>> {
    Seq::new(details.len(), |i: int| "\""@ + quotes_escaped(details[i]) + "\""@)
}

/// The record of a warning in the debug log.
pub open spec fn warning_record(
    doc_id: int,
    kind: Seq<char>,
    message: Seq<char>,
    details: Seq<Seq<char>>,
) -> Seq<char> {
    "{\"type\":\"jit.html_asset_warning\",\"doc_id\":"@ + decimal(doc_id as nat) + ",\"kind\":\""@
        + quotes_escaped(kind) + "\",\"message\":\""@ + quotes_escaped(message) + "\",\"details\":["@
        + join(quoted_list(details), ","@) + "]}"@
}

/// Writes the record of a warning in the debug log.
pub fn asset_warning_record(
    doc_id: usize,
    kind: &str,
    message: &str,
    details: &Vec<String>,
) -> (out:
    String)
    ensures
        out@ == warning_record(doc_id as int, kind@, message@, texts(details@)),
{
    let mut quoted: Vec<String> = Vec::new();
    let mut i: usize = 0;
    while i < details.len()
        invariant
            i <= details@.len(),
            quoted@.len() == i,
            forall|k: int|
                0 <= k < i ==> (#[trigger] quoted@[k])@ == "\""@ + quotes_escaped(details@[k]@) + "\""@,
        decreases details@.len() - i,
    {
        let mut text = "\"".to_owned();
        text.append(&escape_quotes(&details[i]));
        text.append("\"");
        quoted.push(text);
        i += 1;
    }
    proof {
        assert(texts(quoted@) =~= quoted_list(texts(details@)));
    }
    let mut out = "{\"type\":\"jit.html_asset_warning\",\"doc_id\":".to_owned();
    out.append(&decimal_text(doc_id as u64));
    out.append(",\"kind\":\"");
    out.append(&escape_quotes(kind));
    out.append("\",\"message\":\"");
    out.append(&escape_quotes(message));
    out.append("\",\"details\":[");
    out.append(&join_strings(&quoted, ","));
    out.append("]}");
    out
}

proof fn escaped_from_the_front(s: Seq<char>)
    requires
        s.len() > 0,
    ensures
        escaped(s) == escaped_char(s[0]) + escaped(s.drop_first()),
    decreases s.len(),
{
    if s.len() == 1 {
        assert(s.drop_first() =~= Seq::empty());
        assert(s.drop_last() =~= Seq::empty());
        assert(escaped(s) =~= escaped_char(s[0]) + escaped(s.drop_first()));
    } else {
        let head = s.drop_last();
        escaped_from_the_front(head);
        assert(head.drop_first() =~= s.drop_first().drop_last());
        assert(s.drop_first().last() == s.last());
        assert(escaped(s) =~= escaped_char(s[0]) + escaped(s.drop_first()));
    }
}

/// Texts that differ are written differently, so that what is written can be read back.
pub proof fn escaping_can_be_undone(a: Seq<char>, b: Seq<char>)
    requires
        escaped(a) == escaped(b),
    ensures
        a == b,
    decreases a.len(),
{
    reveal_strlit("&amp;");
    reveal_strlit("&lt;");
    reveal_strlit("&gt;");
    reveal_strlit("&quot;");
    reveal_strlit("&#39;");
    if a.len() == 0 && b.len() == 0 {
        assert(a =~= b);
    } else if a.len() == 0 {
        escaped_from_the_front(b);
        assert(escaped(b).len() > 0);
    } else if b.len() == 0 {
        escaped_from_the_front(a);
        assert(escaped(a).len() > 0);
    } else {
        escaped_from_the_front(a);
        escaped_from_the_front(b);
        let x = escaped_char(a[0]);
        let y = escaped_char(b[0]);
        let all = escaped(a);
        assert(all[0] == x[0] && all[0] == y[0]);
        assert(x.len() > 1 ==> all[1] == x[1]);
        assert(y.len() > 1 ==> all[1] == y[1]);
        assert(a[0] == b[0]);
        assert(escaped(a.drop_first()) =~= all.skip(x.len() as int));
        assert(escaped(b.drop_first()) =~= all.skip(y.len() as int));
        escaping_can_be_undone(a.drop_first(), b.drop_first());
        assert(a =~= seq![a[0]] + a.drop_first());
        assert(b =~= seq![b[0]] + b.drop_first());
    }
}

/// The style sheet of the assets comes first and that of the document last, so that the document has
/// the last word.
pub proof fn documents_have_the_last_word(assets: Seq<char>, css: Seq<char>)
    ensures
        assets.is_prefix_of(merged_css(assets, css)),
        !is_blank(css) ==> merged_css(assets, css).len() >= css.len() && merged_css(
            assets,
            css,
        ).subrange(merged_css(assets, css).len() - css.len(), merged_css(assets, css).len() as int)
            == css,
        assets.len() > 0 && !is_blank(css) ==> merged_css(assets, css).len() == assets.len() + 2
            + css.len(),
{
    reveal_strlit("\n\n");
    let all = merged_css(assets, css);
    if assets.len() == 0 {
        assert(assets =~= Seq::empty());
        assert(assets.is_prefix_of(all));
    }
    if !is_blank(css) {
        assert(all.subrange(all.len() - css.len(), all.len() as int) =~= css);
    }
}

/// The body of a document stands in it as it is, behind the language and the title, which are
/// written so that they cannot be taken for markup.
pub proof fn documents_hold_their_body(
    lang: Option<String>,
    title: Option<String>,
    body: Seq<char>,
)
    ensures
        ({
            let all = document_html(lang, title, body);
            let end = "</body></html>"@;
            let at = all.len() - end.len() - body.len();
            let open = "<!doctype html><html lang=\""@;
            let code = escaped(or_else(lang, "en"@));
            &&& 0 <= at
            &&& all.subrange(at, at + body.len()) == body
            &&& all.subrange(at + body.len(), all.len() as int) == end
            &&& all.subrange(0, open.len() as int) == open
            &&& all.subrange(open.len() as int, (open.len() + code.len()) as int) == code
        }),
{
    let all = document_html(lang, title, body);
    let end = "</body></html>"@;
    let at = all.len() - end.len() - body.len();
    let open = "<!doctype html><html lang=\""@;
    let code = escaped(or_else(lang, "en"@));
    assert(all.subrange(at, at + body.len()) =~= body);
    assert(all.subrange(at + body.len(), all.len() as int) =~= end);
    assert(all.subrange(0, open.len() as int) =~= open);
    assert(all.subrange(open.len() as int, (open.len() + code.len()) as int) =~= code);
}

} // verus!
