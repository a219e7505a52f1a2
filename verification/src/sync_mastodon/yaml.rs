//! Writing values into the YAML front matter of a note file.

use vstd::prelude::*;
use crate::text::chars_of;

verus! {

/// One character as it is written inside a double-quoted YAML string:
/// a backslash and a double quote get a backslash before them.
pub open spec fn escaped_char(c: char) -> Seq<char> {
    if c == '\\' {
        seq!['\\', '\\']
    } else if c == '"' {
        seq!['\\', '"']
    } else {
        seq![c]
    }
}

/// `s` escaped for a double-quoted YAML string.
pub open spec fn yaml_escaped(s: Seq<char>) -> Seq<char>
    decreases s.len(),
{
    if s.len() == 0 {
        s
    } else {
        escaped_char(s[0]) + yaml_escaped(s.drop_first())
    }
}

/// The views of a sequence of strings.
pub open spec fn string_views(v: Seq<String>) -> Seq<Seq<char>> {
    v.map_values(|s: String| s@)
}

/// The views of a sequence of character vectors.
pub open spec fn char_views(v: Seq<Vec<char>>) -> Seq<Seq<char>> {
    v.map_values(|s: Vec<char>| s@)
}

/// A line without the carriage return that ends it, if any.
pub open spec fn without_cr(line: Seq<char>) -> Seq<char> {
    if line.len() > 0 && line.last() == '\r' {
        line.drop_last()
    } else {
        line
    }
}

/// The lines of `s` that start with the unfinished line `line` (`str::lines`):
/// a line ends at `\n`, and a `\r` just before that `\n` is dropped; a last
/// line without `\n` is kept as it is, unless it is empty.
pub open spec fn lines_after(s: Seq<char>, line: Seq<char>) -> Seq<Seq<char>>
    decreases s.len(),
{
    if s.len() == 0 {
        if line.len() == 0 {
            seq![]
        } else {
            seq![line]
        }
    } else if s[0] == '\n' {
        seq![without_cr(line)] + lines_after(s.drop_first(), seq![])
    } else {
        lines_after(s.drop_first(), line.push(s[0]))
    }
}

/// The lines of `s`, as `str::lines` gives them.
pub open spec fn text_lines(s: Seq<char>) -> Seq<Seq<char>> {
    lines_after(s, seq![])
}

/// Each line indented by six spaces, as a block scalar's lines are written.
pub open spec fn indented(lines: Seq<Seq<char>>) -> Seq<Seq<char>> {
    lines.map_values(|line: Seq<char>| "      "@ + line)
}

/// The lines of the YAML field `name` with the string `value`: a value with
/// a line break is a literal block scalar (`|-`) with its lines indented;
/// another value is one double-quoted, escaped string.
pub open spec fn yaml_field_lines(name: Seq<char>, value: Seq<char>) -> Seq<Seq<char>> {
    if value.contains('\n') {
        seq![name + ": |-"@] + indented(text_lines(value))
    } else {
        seq![name + ": \""@ + yaml_escaped(value) + "\""@]
    }
}

/// The lines joined with `\n` between them (`[String]::join("\n")`).
pub open spec fn joined_lines(lines: Seq<Seq<char>>) -> Seq<char>
    decreases lines.len(),
{
    if lines.len() == 0 {
        seq![]
    } else if lines.len() == 1 {
        lines[0]
    } else {
        joined_lines(lines.drop_last()) + seq!['\n'] + lines.last()
    }
}

/// Escapes a value for a double-quoted YAML string.
pub fn yaml_escape(value: &str) -> (r: String)
    ensures
        r@ == yaml_escaped(value@),
{
    let s = chars_of(value);
    let mut r = String::new();
    let mut i: usize = 0;
    assert(s@.skip(0) == s@);
    while i < s.len()
        invariant
            i <= s@.len(),
            yaml_escaped(s@) == r@ + yaml_escaped(s@.skip(i as int)),
        decreases s.len() - i,
    {
        let ghost before = r@;
        let c = s[i];
        assert(s@.skip(i as int).drop_first() == s@.skip(i + 1));
        assert(s@.skip(i as int)[0] == c);
        if c == '\\' {
            crate::text::push_char(&mut r, '\\');
            crate::text::push_char(&mut r, '\\');
        } else if c == '"' {
            crate::text::push_char(&mut r, '\\');
            crate::text::push_char(&mut r, '"');
        } else {
            crate::text::push_char(&mut r, c);
        }
        assert(r@ == before + escaped_char(c));
        assert(r@ + yaml_escaped(s@.skip(i + 1)) == before + (escaped_char(c) + yaml_escaped(s@.skip(i + 1))));
        i += 1;
    }
    assert(s@.skip(s@.len() as int) == Seq::<char>::empty());
    assert(r@ + Seq::<char>::empty() == r@);
    r
}

/// Drops a carriage return that ends the line.
fn drop_cr(line: &mut Vec<char>)
    ensures
        final(line)@ == without_cr(old(line)@),
{
    let n: usize = line.len();
    if n > 0 && line[n - 1] == '\r' {
        line.pop();
    }
}

/// The lines of `s`.
pub fn split_lines(s: &Vec<char>) -> (r: Vec<Vec<char>>)
    ensures
        char_views(r@) == text_lines(s@),
{
    let mut r: Vec<Vec<char>> = Vec::new();
    let mut line: Vec<char> = Vec::new();
    let mut i: usize = 0;
    assert(s@.skip(0) == s@);
    assert(char_views(r@) == Seq::<Seq<char>>::empty());
    while i < s.len()
        invariant
            i <= s@.len(),
            text_lines(s@) == char_views(r@) + lines_after(s@.skip(i as int), line@),
        decreases s.len() - i,
    {
        let c = s[i];
        assert(s@.skip(i as int).drop_first() == s@.skip(i + 1));
        assert(s@.skip(i as int)[0] == c);
        if c == '\n' {
            let ghost done = char_views(r@);
            drop_cr(&mut line);
            let ghost finished = line@;
            r.push(line);
            line = Vec::new();
            assert(char_views(r@) == done.push(finished));
            assert(done.push(finished) + lines_after(s@.skip(i + 1), seq![])
                == done + (seq![finished] + lines_after(s@.skip(i + 1), seq![])));
        } else {
            line.push(c);
        }
        i += 1;
    }
    assert(s@.skip(s@.len() as int) == Seq::<char>::empty());
    let ghost done = char_views(r@);
    if line.len() > 0 {
        let ghost last = line@;
        r.push(line);
        assert(char_views(r@) == done.push(last));
        assert(done + seq![last] == done.push(last));
    } else {
        assert(done + Seq::<Seq<char>>::empty() == done);
    }
    r
}

/// The string `prefix` followed by the characters of `v`.
fn prefixed(prefix: &str, v: &Vec<char>) -> (r: String)
    ensures
        r@ == prefix@ + v@,
{
    let mut r = prefix.to_string();
    let mut i: usize = 0;
    while i < v.len()
        invariant
            i <= v@.len(),
            r@ == prefix@ + v@.take(i as int),
        decreases v.len() - i,
    {
        crate::text::push_char(&mut r, v[i]);
        i += 1;
        assert(prefix@ + v@.take(i as int) == (prefix@ + v@.take(i - 1)).push(v@[i - 1]));
    }
    assert(v@.take(v@.len() as int) == v@);
    r
}

/// The line `head`, the escaped `value`, then a closing double quote.
pub fn quoted_line(head: &str, value: &str) -> (r: String)
    ensures
        r@ == head@ + yaml_escaped(value@) + "\""@,
{
    let mut r = head.to_string();
    let escaped = yaml_escape(value);
    r.append(escaped.as_str());
    r.append("\"");
    r
}

/// The lines of the YAML field `name` with the string `value`.
pub fn yaml_string_field(name: &str, value: &str) -> (r: Vec<String>)
    ensures
        string_views(r@) == yaml_field_lines(name@, value@),
{
    let s = chars_of(value);
    let mut r: Vec<String> = Vec::new();
    if crate::text::contains_char(&s, '\n') {
        let mut head = name.to_string();
        head.append(": |-");
        r.push(head);
        let lines = split_lines(&s);
        let mut k: usize = 0;
        while k < lines.len()
            invariant
                k <= lines@.len(),
                char_views(lines@) == text_lines(value@),
                string_views(r@) == seq![name@ + ": |-"@] + indented(char_views(lines@).take(k as int)),
            decreases lines.len() - k,
        {
            let ghost before = string_views(r@);
            let line = prefixed("      ", &lines[k]);
            r.push(line);
            assert(string_views(r@) == before.push(line@));
            assert(char_views(lines@)[k as int] == lines@[k as int]@);
            assert(indented(char_views(lines@).take(k + 1))
                == indented(char_views(lines@).take(k as int)).push("      "@ + lines@[k as int]@));
            k += 1;
        }
        assert(char_views(lines@).take(lines@.len() as int) == char_views(lines@));
        r
    } else {
        let mut head = name.to_string();
        head.append(": \"");
        let line = quoted_line(head.as_str(), value);
        r.push(line);
        assert(string_views(r@) == seq![line@]);
        r
    }
}

/// The lines joined with `\n` between them.
pub fn join_lines(lines: &Vec<String>) -> (r: String)
    ensures
        r@ == joined_lines(string_views(lines@)),
{
    let mut r = String::new();
    let mut i: usize = 0;
    assert(string_views(lines@).take(0) == Seq::<Seq<char>>::empty());
    while i < lines.len()
        invariant
            i <= lines@.len(),
            r@ == joined_lines(string_views(lines@).take(i as int)),
        decreases lines.len() - i,
    {
        let ghost taken = string_views(lines@).take(i + 1);
        assert(taken.drop_last() == string_views(lines@).take(i as int));
        assert(taken.last() == lines@[i as int]@);
        if i > 0 {
            r.append("\n");
            proof {
                reveal_strlit("\n");
            }
        } else {
            assert(taken.len() == 1 && taken[0] == lines@[0]@);
        }
        r.append(lines[i].as_str());
        i += 1;
    }
    assert(string_views(lines@).take(lines@.len() as int) == string_views(lines@));
    r
}

/// How a YAML reader decodes the inside of a double-quoted string that uses
/// only backslash escapes of single characters: a backslash and the
/// character after it stand for that character.
pub open spec fn yaml_unescaped(s: Seq<char>) -> Seq<char>
    decreases s.len(),
{
    if s.len() == 0 {
        s
    } else if s[0] == '\\' && s.len() >= 2 {
        seq![s[1]] + yaml_unescaped(s.skip(2))
    } else {
        seq![s[0]] + yaml_unescaped(s.drop_first())
    }
}

/// Reading an escaped value back gives the value: escaping loses nothing
/// and a quote in the value cannot end the quoted string early.
pub proof fn lemma_yaml_escape_round_trip(s: Seq<char>)
    ensures
        yaml_unescaped(yaml_escaped(s)) == s,
    decreases s.len(),
{
    if s.len() > 0 {
        let rest = s.drop_first();
        lemma_yaml_escape_round_trip(rest);
        let head = escaped_char(s[0]);
        let whole = head + yaml_escaped(rest);
        if s[0] == '\\' || s[0] == '"' {
            assert(whole.skip(2) =~= yaml_escaped(rest));
            assert(whole[1] == s[0]);
        } else {
            assert(whole.drop_first() =~= yaml_escaped(rest));
        }
        assert(s =~= seq![s[0]] + rest);
    }
}

proof fn lemma_joined_lines_cons(first: Seq<char>, rest: Seq<Seq<char>>)
    requires
        rest.len() > 0,
    ensures
        joined_lines(seq![first] + rest) == first + seq!['\n'] + joined_lines(rest),
    decreases rest.len(),
{
    let all = seq![first] + rest;
    assert(all.drop_last() =~= seq![first] + rest.drop_last());
    assert(all.last() == rest.last());
    assert(joined_lines(all) == joined_lines(all.drop_last()) + seq!['\n'] + all.last());
    if rest.len() == 1 {
        assert(seq![first] + rest.drop_last() =~= seq![first]);
        assert(joined_lines(seq![first]) == first);
        assert(joined_lines(rest) == rest[0]);
    } else {
        lemma_joined_lines_cons(first, rest.drop_last());
        assert(joined_lines(rest) == joined_lines(rest.drop_last()) + seq!['\n'] + rest.last());
        assert(first + seq!['\n'] + joined_lines(rest.drop_last()) + seq!['\n'] + rest.last()
            =~= first + seq!['\n'] + (joined_lines(rest.drop_last()) + seq!['\n'] + rest.last()));
    }
}

proof fn lemma_lines_after_nonempty(s: Seq<char>, line: Seq<char>)
    requires
        s.len() > 0,
    ensures
        lines_after(s, line).len() > 0,
    decreases s.len(),
{
    if s[0] != '\n' {
        if s.len() > 1 {
            lemma_lines_after_nonempty(s.drop_first(), line.push(s[0]));
        } else {
            assert(s.drop_first().len() == 0);
            assert(line.push(s[0]).len() > 0);
            assert(lines_after(s.drop_first(), line.push(s[0])) == seq![line.push(s[0])]);
        }
    }
}

proof fn lemma_lines_after_join(s: Seq<char>, line: Seq<char>)
    requires
        !s.contains('\r'),
        !line.contains('\r'),
        s.len() == 0 || s.last() != '\n',
    ensures
        joined_lines(lines_after(s, line)) == line + s,
    decreases s.len(),
{
    if s.len() == 0 {
        assert(line + s =~= line);
    } else {
        let rest = s.drop_first();
        assert(!rest.contains('\r')) by {
            if rest.contains('\r') {
                let i = choose|i: int| 0 <= i < rest.len() && rest[i] == '\r';
                assert(s[i + 1] == '\r');
            }
        }
        assert(rest.len() > 0 ==> rest.last() == s.last());
        if s[0] == '\n' {
            assert(rest.len() > 0);
            if line.len() > 0 && line.last() == '\r' {
                assert(line.contains('\r'));
            }
            lemma_lines_after_join(rest, seq![]);
            lemma_lines_after_nonempty(rest, seq![]);
            lemma_joined_lines_cons(line, lines_after(rest, seq![]));
            assert(seq![] + rest =~= rest);
            assert(line + seq!['\n'] + rest =~= line + s);
        } else {
            let longer = line.push(s[0]);
            assert(!longer.contains('\r')) by {
                if longer.contains('\r') {
                    let i = choose|i: int| 0 <= i < longer.len() && longer[i] == '\r';
                    if i < line.len() {
                        assert(line[i] == '\r');
                    } else {
                        assert(s[0] == '\r');
                        assert(s.contains('\r'));
                    }
                }
            }
            lemma_lines_after_join(rest, longer);
            assert(longer + rest =~= line + s);
        }
    }
}

/// Writing a value as a block scalar keeps it: its lines, joined again
/// with line breaks, give the value back (for a value without carriage
/// returns that does not end with a line break, which `|-` would drop).
pub proof fn lemma_block_lines_round_trip(value: Seq<char>)
    requires
        !value.contains('\r'),
        value.len() == 0 || value.last() != '\n',
    ensures
        joined_lines(text_lines(value)) == value,
{
    lemma_lines_after_join(value, seq![]);
    assert(seq![] + value =~= value);
}

} // verus!
