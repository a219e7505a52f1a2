//! Turning the HTML of a Mastodon status into plain text.

use vstd::prelude::*;
use crate::text::{
    chars_of, is_white_space, literal, replace, replace_spec, string_of, trim, trim_end_spec, trim_spec,
    trim_start_spec,
};

verus! {

/// The characters of `s` that stand outside tags: `<` opens a tag, `>`
/// closes it, and neither is kept.
pub open spec fn outside_tags(s: Seq<char>, in_tag: bool) -> Seq<char>
    decreases s.len(),
{
    if s.len() == 0 {
        s
    } else if s[0] == '<' {
        outside_tags(s.drop_first(), true)
    } else if s[0] == '>' {
        outside_tags(s.drop_first(), false)
    } else if !in_tag {
        seq![s[0]] + outside_tags(s.drop_first(), in_tag)
    } else {
        outside_tags(s.drop_first(), in_tag)
    }
}

/// The HTML with paragraph ends and line breaks turned into newlines:
/// `</p><p>` into two, `</p>`, `<br />`, `<br/>` and `<br>` into one, in
/// that order.
pub open spec fn with_line_breaks(html: Seq<char>) -> Seq<char> {
    replace_spec(
        replace_spec(
            replace_spec(
                replace_spec(replace_spec(html, "</p><p>"@, "\n\n"@), "</p>"@, "\n"@),
                "<br />"@,
                "\n"@,
            ),
            "<br/>"@,
            "\n"@,
        ),
        "<br>"@,
        "\n"@,
    )
}

/// The text with the five HTML entities `&amp;`, `&lt;`, `&gt;`, `&quot;`
/// and `&#39;` decoded, in that order.
pub open spec fn decoded_entities(text: Seq<char>) -> Seq<char> {
    replace_spec(
        replace_spec(
            replace_spec(
                replace_spec(replace_spec(text, "&amp;"@, "&"@), "&lt;"@, "<"@),
                "&gt;"@,
                ">"@,
            ),
            "&quot;"@,
            "\""@,
        ),
        "&#39;"@,
        "'"@,
    )
}

/// The plain text of a status's HTML: line breaks kept, tags dropped,
/// surrounding white space trimmed, entities decoded.
pub open spec fn html_text(html: Seq<char>) -> Seq<char> {
    decoded_entities(trim_spec(outside_tags(with_line_breaks(html), false)))
}

fn replace_literal(s: &Vec<char>, pattern: &str, replacement: &str) -> (r: Vec<char>)
    requires
        pattern@.len() > 0,
    ensures
        r@ == replace_spec(s@, pattern@, replacement@),
{
    replace(s, &literal(pattern), &literal(replacement))
}

fn drop_tags(s: &Vec<char>) -> (r: Vec<char>)
    ensures
        r@ == outside_tags(s@, false),
{
    let mut r: Vec<char> = Vec::new();
    let mut in_tag = false;
    let mut i: usize = 0;
    assert(s@.skip(0) == s@);
    while i < s.len()
        invariant
            i <= s@.len(),
            outside_tags(s@, false) == r@ + outside_tags(s@.skip(i as int), in_tag),
        decreases s.len() - i,
    {
        let ghost before = r@;
        let c = s[i];
        assert(s@.skip(i as int).drop_first() == s@.skip(i + 1));
        assert(s@.skip(i as int)[0] == c);
        if c == '<' {
            in_tag = true;
        } else if c == '>' {
            in_tag = false;
        } else if !in_tag {
            r.push(c);
            assert(r@ + outside_tags(s@.skip(i + 1), in_tag) == before + (seq![c] + outside_tags(s@.skip(i + 1), in_tag)));
        }
        i += 1;
    }
    assert(s@.skip(s@.len() as int) == Seq::<char>::empty());
    assert(r@ + Seq::<char>::empty() == r@);
    r
}

fn decode_chars(text: &Vec<char>) -> (r: Vec<char>)
    ensures
        r@ == decoded_entities(text@),
{
    proof {
        reveal_strlit("&amp;");
        reveal_strlit("&lt;");
        reveal_strlit("&gt;");
        reveal_strlit("&quot;");
        reveal_strlit("&#39;");
    }
    let a = replace_literal(text, "&amp;", "&");
    let b = replace_literal(&a, "&lt;", "<");
    let c = replace_literal(&b, "&gt;", ">");
    let d = replace_literal(&c, "&quot;", "\"");
    replace_literal(&d, "&#39;", "'")
}

/// Decodes the HTML entities that Mastodon writes in statuses.
pub fn decode_html_entities(text: &str) -> (r: String)
    ensures
        r@ == decoded_entities(text@),
{
    string_of(&decode_chars(&chars_of(text)))
}

/// The plain text of a status's HTML content.
pub fn html_to_text(html: &str) -> (r: String)
    ensures
        r@ == html_text(html@),
{
    proof {
        reveal_strlit("</p><p>");
        reveal_strlit("</p>");
        reveal_strlit("<br />");
        reveal_strlit("<br/>");
        reveal_strlit("<br>");
    }
    let s = chars_of(html);
    let a = replace_literal(&s, "</p><p>", "\n\n");
    let b = replace_literal(&a, "</p>", "\n");
    let c = replace_literal(&b, "<br />", "\n");
    let d = replace_literal(&c, "<br/>", "\n");
    let with_breaks = replace_literal(&d, "<br>", "\n");
    let text = drop_tags(&with_breaks);
    let trimmed = trim(&text);
    string_of(&decode_chars(&trimmed))
}

proof fn lemma_replace_absent(s: Seq<char>, pattern: Seq<char>, replacement: Seq<char>)
    requires
        pattern.len() > 0,
        !s.contains(pattern[0]),
    ensures
        replace_spec(s, pattern, replacement) == s,
    decreases s.len(),
{
    if s.len() > 0 {
        if pattern.len() <= s.len() && s.take(pattern.len() as int) == pattern {
            assert(s.take(pattern.len() as int)[0] == s[0]);
            assert(s.contains(s[0]));
        }
        assert(!s.drop_first().contains(pattern[0])) by {
            if s.drop_first().contains(pattern[0]) {
                let i = choose|i: int| 0 <= i < s.drop_first().len() && s.drop_first()[i] == pattern[0];
                assert(s[i + 1] == pattern[0]);
            }
        }
        lemma_replace_absent(s.drop_first(), pattern, replacement);
        assert(seq![s[0]] + s.drop_first() =~= s);
    }
}

proof fn lemma_no_tags(s: Seq<char>)
    requires
        !s.contains('<'),
        !s.contains('>'),
    ensures
        outside_tags(s, false) == s,
    decreases s.len(),
{
    if s.len() > 0 {
        assert(s.contains(s[0]));
        assert(!s.drop_first().contains('<') && !s.drop_first().contains('>')) by {
            if s.drop_first().contains('<') {
                let i = choose|i: int| 0 <= i < s.drop_first().len() && s.drop_first()[i] == '<';
                assert(s[i + 1] == '<');
            }
            if s.drop_first().contains('>') {
                let i = choose|i: int| 0 <= i < s.drop_first().len() && s.drop_first()[i] == '>';
                assert(s[i + 1] == '>');
            }
        }
        lemma_no_tags(s.drop_first());
        assert(seq![s[0]] + s.drop_first() =~= s);
    }
}

/// Text is never taken for markup once its entities are decoded: a status
/// text without `<` and `>` keeps every character, only trimmed and with
/// its entities decoded, so `I &lt;3 Rust` comes out as `I <3 Rust`.
pub proof fn lemma_plain_text_kept(s: Seq<char>)
    requires
        !s.contains('<'),
        !s.contains('>'),
    ensures
        html_text(s) == decoded_entities(trim_spec(s)),
{
    reveal_strlit("</p><p>");
    reveal_strlit("</p>");
    reveal_strlit("<br />");
    reveal_strlit("<br/>");
    reveal_strlit("<br>");
    lemma_replace_absent(s, "</p><p>"@, "\n\n"@);
    lemma_replace_absent(s, "</p>"@, "\n"@);
    lemma_replace_absent(s, "<br />"@, "\n"@);
    lemma_replace_absent(s, "<br/>"@, "\n"@);
    lemma_replace_absent(s, "<br>"@, "\n"@);
    assert(with_line_breaks(s) == s);
    lemma_no_tags(s);
}

proof fn lemma_replace_after_free(a: Seq<char>, b: Seq<char>, pattern: Seq<char>, replacement: Seq<char>)
    requires
        pattern.len() > 0,
        !a.contains(pattern[0]),
    ensures
        replace_spec(a + b, pattern, replacement) == a + replace_spec(b, pattern, replacement),
    decreases a.len(),
{
    if a.len() > 0 {
        let x = a + b;
        assert(x[0] == a[0]);
        assert(a.contains(a[0]));
        if pattern.len() <= x.len() && x.take(pattern.len() as int) == pattern {
            assert(x.take(pattern.len() as int)[0] == x[0]);
        }
        assert(x.drop_first() =~= a.drop_first() + b);
        assert(!a.drop_first().contains(pattern[0])) by {
            if a.drop_first().contains(pattern[0]) {
                let i = choose|i: int| 0 <= i < a.drop_first().len() && a.drop_first()[i] == pattern[0];
                assert(a[i + 1] == pattern[0]);
            }
        }
        lemma_replace_after_free(a.drop_first(), b, pattern, replacement);
        assert(seq![a[0]] + (a.drop_first() + replace_spec(b, pattern, replacement))
            =~= a + replace_spec(b, pattern, replacement));
    } else {
        assert(a + b =~= b);
        assert(a + replace_spec(b, pattern, replacement) =~= replace_spec(b, pattern, replacement));
    }
}

/// `x` with a first character that starts `pattern` but no match of it at
/// the start keeps that character.
proof fn lemma_replace_no_match_here(x: Seq<char>, pattern: Seq<char>, replacement: Seq<char>)
    requires
        pattern.len() > 1,
        x.len() > 1,
        x[1] != pattern[1],
    ensures
        replace_spec(x, pattern, replacement) == seq![x[0]] + replace_spec(x.drop_first(), pattern, replacement),
{
    if pattern.len() <= x.len() && x.take(pattern.len() as int) == pattern {
        assert(x.take(pattern.len() as int)[1] == x[1]);
    }
}

proof fn lemma_free_of(s: Seq<char>, c: char, d: char)
    requires
        !s.contains(c),
        c != d,
    ensures
        !(seq![d] + s).contains(c),
        !(s + seq![d]).contains(c),
{
    if (seq![d] + s).contains(c) {
        let i = choose|i: int| 0 <= i < (seq![d] + s).len() && (seq![d] + s)[i] == c;
        assert(s[i - 1] == c);
    }
    if (s + seq![d]).contains(c) {
        let i = choose|i: int| 0 <= i < (s + seq![d]).len() && (s + seq![d])[i] == c;
        assert(s[i] == c);
    }
}

/// A paragraph's markup goes and its text stays: for a text without `<`
/// and `>` that does not start with white space, the paragraph
/// `<p>text</p>` becomes the text, trimmed, with its entities decoded.
pub proof fn lemma_paragraph_text(s: Seq<char>)
    requires
        s.len() > 0,
        !is_white_space(s[0]),
        !s.contains('<'),
        !s.contains('>'),
    ensures
        html_text("<p>"@ + s + "</p>"@) == decoded_entities(trim_spec(s)),
{
    reveal_strlit("<p>");
    reveal_strlit("</p><p>");
    reveal_strlit("</p>");
    reveal_strlit("<br />");
    reveal_strlit("<br/>");
    reveal_strlit("<br>");
    reveal_strlit("\n\n");
    reveal_strlit("\n");
    let close = "</p>"@;
    let x = "<p>"@ + s + close;
    let inner = seq!['p', '>'] + s;
    assert(!inner.contains('<')) by {
        lemma_free_of(s, '<', '>');
        lemma_free_of(seq!['>'] + s, '<', 'p');
        assert(seq!['p'] + (seq!['>'] + s) =~= inner);
    }
    assert(x =~= seq!['<'] + (inner + close));
    // `</p><p>`: no match anywhere
    lemma_replace_no_match_here(x, "</p><p>"@, "\n\n"@);
    assert(x.drop_first() =~= inner + close);
    lemma_replace_after_free(inner, close, "</p><p>"@, "\n\n"@);
    assert(replace_spec(close, "</p><p>"@, "\n\n"@)
        == seq![close[0]] + replace_spec(close.drop_first(), "</p><p>"@, "\n\n"@));
    lemma_replace_absent(close.drop_first(), "</p><p>"@, "\n\n"@);
    assert(seq![close[0]] + close.drop_first() =~= close);
    let r1 = replace_spec(x, "</p><p>"@, "\n\n"@);
    assert(r1 =~= x);
    // `</p>`: the closing tag becomes a line break
    lemma_replace_no_match_here(x, "</p>"@, "\n"@);
    lemma_replace_after_free(inner, close, "</p>"@, "\n"@);
    assert(close.take(4) =~= close);
    assert(close.skip(4) =~= Seq::<char>::empty());
    let y = seq!['<'] + (inner + seq!['\n']);
    assert(replace_spec(close.skip(4), "</p>"@, "\n"@) == Seq::<char>::empty());
    assert(replace_spec(close, "</p>"@, "\n"@) == "\n"@ + replace_spec(close.skip(4), "</p>"@, "\n"@));
    assert(replace_spec(close, "</p>"@, "\n"@) =~= seq!['\n']);
    assert(replace_spec(x, "</p>"@, "\n"@) == seq![x[0]] + replace_spec(inner + close, "</p>"@, "\n"@));
    let r2 = replace_spec(r1, "</p>"@, "\n"@);
    assert(r2 =~= y);
    // the line break tags: no match anywhere
    let ys = inner + seq!['\n'];
    assert(!ys.contains('<')) by {
        lemma_free_of(inner, '<', '\n');
    }
    assert(y.drop_first() =~= ys);
    lemma_replace_no_match_here(y, "<br />"@, "\n"@);
    lemma_replace_absent(ys, "<br />"@, "\n"@);
    lemma_replace_no_match_here(y, "<br/>"@, "\n"@);
    lemma_replace_absent(ys, "<br/>"@, "\n"@);
    lemma_replace_no_match_here(y, "<br>"@, "\n"@);
    lemma_replace_absent(ys, "<br>"@, "\n"@);
    assert(with_line_breaks(x) =~= y);
    // tags: `<p>` goes
    let sn = s + seq!['\n'];
    assert(!sn.contains('<') && !sn.contains('>')) by {
        lemma_free_of(s, '<', '\n');
        lemma_free_of(s, '>', '\n');
    }
    lemma_no_tags(sn);
    let y1 = y.drop_first();
    assert(y1 =~= seq!['p'] + (seq!['>'] + sn));
    assert(y[0] == '<');
    assert(outside_tags(y, false) == outside_tags(y1, true));
    let y2 = y1.drop_first();
    assert(y2 =~= seq!['>'] + sn);
    assert(y1[0] == 'p');
    assert(outside_tags(y1, true) == outside_tags(y2, true));
    assert(y2[0] == '>');
    assert(y2.drop_first() =~= sn);
    assert(outside_tags(y2, true) == outside_tags(sn, false));
    assert(outside_tags(y, false) == sn);
    // trimming drops the final line break
    assert(trim_start_spec(sn) == sn);
    assert(sn.drop_last() =~= s);
    assert(trim_start_spec(s) == s);
    assert(trim_end_spec(sn) == trim_end_spec(s));
}

} // verus!
