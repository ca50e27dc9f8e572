//! Descriptions: plain text split into sentences, each wrapped in `<s>` tags, line breaks
//! written `<br />`, the whole wrapped in `<desc>` tags.
use vstd::prelude::*;

use crate::pattern::{compile, error_message, find_all, regex_compiles, regex_find_all};
use crate::text::{
    chars_of, concat, count_occurrences, ends_with, extend, extend_str, free_of, has_suffix,
    occurrences, repeat, repeated, replace, replaced, same_chars, string_of, trim_end,
    trimmed_end, views,
};

verus! {

broadcast use vstd::string::group_string_axioms;

/// The regular expression that splits a text into sentences: a line break, a code block
/// between triple back quotes, text up to `!`, `?`, a line break or a `.` followed by white
/// space (with the white space after it), or the rest of the text.
pub const SENTENCE_PATTERN: &'static str =
    r"`[\n\r]|```(?:\w+\n)?[\s\S]*?```|.*?(?:(?:!|\?|\n)|(?:\.\s+))[ \t\s]*|.*?\z";

/// Why a description could not be generated.
#[derive(Debug)]
pub enum DescriptionError {
    /// The sentence pattern was refused by the regular expression crate; its message.
    InvalidPattern(String),
}

impl DescriptionError {
    /// A description of the error for the user.
    pub fn message(&self) -> (m: String)
        ensures
            self matches DescriptionError::InvalidPattern(text) ==> m@ == text@,
    {
        match self {
            DescriptionError::InvalidPattern(text) => text.clone(),
        }
    }
}

/// The line break tag.
pub open spec fn line_break() -> Seq<char> {
    "<br />"@
}

/// `s` with each `\n` and each `\r` written as a line break tag.
pub open spec fn breaks_marked(s: Seq<char>) -> Seq<char>
    decreases s.len(),
{
    if s.len() == 0 {
        s
    } else if s.last() == '\n' || s.last() == '\r' {
        breaks_marked(s.drop_last()) + line_break()
    } else {
        breaks_marked(s.drop_last()).push(s.last())
    }
}

/// One sentence of the description. With its line breaks marked, a sentence that is empty or
/// a single line break stays as it is; one that ends in a line break is wrapped in `<s>` tags
/// without its line breaks, which all follow the closing tag; one that ends in a space is
/// wrapped without its trailing white space and followed by one space; any other is wrapped
/// as it is.
pub open spec fn sentence(m: Seq<char>) -> Seq<char> {
    let s = breaks_marked(m);
    if s.len() == 0 || s == line_break() {
        s
    } else if has_suffix(s, line_break()) {
        "<s>"@ + replaced(s, line_break(), Seq::empty()) + "</s>"@ + repeated(
            line_break(),
            occurrences(s, line_break()),
        )
    } else if has_suffix(s, " "@) {
        "<s>"@ + trimmed_end(s) + "</s> "@
    } else {
        "<s>"@ + s + "</s>"@
    }
}

/// The description made of the given sentences, in order.
pub open spec fn description(sentences: Seq<Seq<char>>) -> Seq<char> {
    "<desc>"@ + concat(sentences.map_values(|m: Seq<char>| sentence(m))) + "</desc>"@
}

/// `m` with its line breaks marked (see `breaks_marked`).
fn mark_breaks(m: &Vec<char>) -> (s: Vec<char>)
    ensures
        s@ == breaks_marked(m@),
{
    let br = chars_of("<br />");
    let mut s: Vec<char> = Vec::new();
    let mut i: usize = 0;
    while i < m.len()
        invariant
            i <= m.len(),
            br@ == line_break(),
            s@ == breaks_marked(m@.take(i as int)),
        decreases m.len() - i,
    {
        let c = m[i];
        assert(m@.take(i + 1).drop_last() =~= m@.take(i as int));
        if c == '\n' || c == '\r' {
            extend(&mut s, &br);
        } else {
            s.push(c);
        }
        i = i + 1;
    }
    assert(m@.take(m.len() as int) =~= m@);
    s
}

/// One sentence of the description (see `sentence`).
pub fn sentence_text(m: &str) -> (t: Vec<char>)
    ensures
        t@ == sentence(m@),
{
    proof {
        reveal_strlit("<br />");
    }
    let br = chars_of("<br />");
    let s = mark_breaks(&chars_of(m));
    if s.len() == 0 || same_chars(&s, &br) {
        s
    } else if ends_with(&s, &br) {
        let mut t: Vec<char> = Vec::new();
        extend_str(&mut t, "<s>");
        let none: Vec<char> = Vec::new();
        extend(&mut t, &replace(&s, &br, &none));
        extend_str(&mut t, "</s>");
        let n = count_occurrences(&s, &br);
        extend(&mut t, &repeat(&br, n));
        t
    } else if ends_with(&s, &chars_of(" ")) {
        let mut t: Vec<char> = Vec::new();
        extend_str(&mut t, "<s>");
        extend(&mut t, &trim_end(&s));
        extend_str(&mut t, "</s> ");
        t
    } else {
        let mut t: Vec<char> = Vec::new();
        extend_str(&mut t, "<s>");
        extend(&mut t, &s);
        extend_str(&mut t, "</s>");
        t
    }
}

/// The description made of the given sentences (see `description`).
pub fn description_of(sentences: &Vec<String>) -> (d: String)
    ensures
        d@ == description(views(sentences@)),
{
    let ghost ms = views(sentences@);
    let mut out: Vec<char> = Vec::new();
    extend_str(&mut out, "<desc>");
    let mut i: usize = 0;
    while i < sentences.len()
        invariant
            i <= sentences.len(),
            ms == views(sentences@),
            out@ == "<desc>"@ + concat(
                ms.take(i as int).map_values(|m: Seq<char>| sentence(m)),
            ),
        decreases sentences.len() - i,
    {
        let t = sentence_text(sentences[i].as_str());
        extend(&mut out, &t);
        i = i + 1;
        assert(ms.take(i as int).map_values(|m: Seq<char>| sentence(m)).drop_last()
            =~= ms.take((i - 1) as int).map_values(|m: Seq<char>| sentence(m)));
    }
    assert(ms.take(sentences.len() as int) =~= ms);
    extend_str(&mut out, "</desc>");
    string_of(&out)
}

/// Converts plain text into a description: the text is split into sentences by
/// `SENTENCE_PATTERN` and each sentence is written as `sentence` gives it.
pub fn str_to_description(input: &str) -> (res: Result<String, DescriptionError>)
    ensures
        match res {
            Ok(d) => {
                &&& regex_compiles(SENTENCE_PATTERN@)
                &&& d@ == description(regex_find_all(SENTENCE_PATTERN@, input@))
            },
            Err(_) => !regex_compiles(SENTENCE_PATTERN@),
        },
{
    let p = match compile(SENTENCE_PATTERN) {
        Ok(p) => p,
        Err(e) => {
            return Err(DescriptionError::InvalidPattern(error_message(&e)));
        },
    };
    let sentences = find_all(&p, input);
    Ok(description_of(&sentences))
}

/// The number of line break characters (`\n` and `\r`) in `m`.
pub open spec fn line_break_count(m: Seq<char>) -> nat
    decreases m.len(),
{
    if m.len() == 0 {
        0
    } else {
        (if m[0] == '\n' || m[0] == '\r' {
            1nat
        } else {
            0nat
        }) + line_break_count(m.skip(1))
    }
}

/// How one character is written once line breaks are marked.
spec fn marked_char(c: char) -> Seq<char> {
    if c == '\n' || c == '\r' {
        line_break()
    } else {
        seq![c]
    }
}

proof fn lemma_breaks_marked_front(m: Seq<char>)
    requires
        m.len() > 0,
    ensures
        breaks_marked(m) == marked_char(m[0]) + breaks_marked(m.skip(1)),
    decreases m.len(),
{
    let last = m.last();
    assert(breaks_marked(m) == breaks_marked(m.drop_last()) + marked_char(last)) by {
        if !(last == '\n' || last == '\r') {
            assert(breaks_marked(m.drop_last()).push(last) =~= breaks_marked(m.drop_last())
                + seq![last]);
        }
    }
    if m.len() == 1 {
        assert(m.drop_last() =~= Seq::<char>::empty());
        assert(m.skip(1) =~= Seq::<char>::empty());
        assert(marked_char(m[0]) + Seq::<char>::empty() =~= marked_char(m[0]));
        assert(Seq::<char>::empty() + marked_char(last) =~= marked_char(last));
    } else {
        lemma_breaks_marked_front(m.drop_last());
        let t = m.skip(1);
        assert(m.drop_last().skip(1) =~= t.drop_last());
        assert(t.last() == last);
        assert(breaks_marked(t) == breaks_marked(t.drop_last()) + marked_char(last)) by {
            if !(last == '\n' || last == '\r') {
                assert(breaks_marked(t.drop_last()).push(last) =~= breaks_marked(t.drop_last())
                    + seq![last]);
            }
        }
        assert(breaks_marked(m) =~= marked_char(m[0]) + breaks_marked(t));
    }
}

/// Marking line breaks never shortens a text.
proof fn lemma_breaks_marked_len(m: Seq<char>)
    ensures
        breaks_marked(m).len() >= m.len(),
    decreases m.len(),
{
    reveal_strlit("<br />");
    if m.len() > 0 {
        lemma_breaks_marked_len(m.drop_last());
    }
}

/// Line breaks are marked piece by piece.
proof fn lemma_breaks_marked_concat(a: Seq<char>, b: Seq<char>)
    ensures
        breaks_marked(a + b) == breaks_marked(a) + breaks_marked(b),
    decreases b.len(),
{
    if b.len() == 0 {
        assert(a + b =~= a);
        assert(breaks_marked(a) + breaks_marked(b) =~= breaks_marked(a));
    } else {
        let ab = a + b;
        assert(ab.drop_last() =~= a + b.drop_last());
        assert(ab.last() == b.last());
        lemma_breaks_marked_concat(a, b.drop_last());
        let c = b.last();
        if !(c == '\n' || c == '\r') {
            assert(breaks_marked(ab.drop_last()).push(c) =~= breaks_marked(a) + breaks_marked(
                b.drop_last(),
            ).push(c));
        } else {
            assert(breaks_marked(ab.drop_last()) + line_break() =~= breaks_marked(a) + (
            breaks_marked(b.drop_last()) + line_break()));
        }
    }
}

/// A text without line breaks is left as it is by marking them, and counts none.
proof fn lemma_breaks_marked_plain(a: Seq<char>)
    requires
        free_of(a, '\n'),
        free_of(a, '\r'),
    ensures
        breaks_marked(a) == a,
        line_break_count(a) == 0,
    decreases a.len(),
{
    if a.len() > 0 {
        lemma_breaks_marked_plain(a.drop_last());
        assert(breaks_marked(a.drop_last()).push(a.last()) =~= a);
        assert(free_of(a.skip(1), '\n'));
        assert(free_of(a.skip(1), '\r'));
        lemma_breaks_marked_plain(a.skip(1));
    }
}

/// Line breaks are counted piece by piece.
proof fn lemma_line_break_count_concat(a: Seq<char>, b: Seq<char>)
    ensures
        line_break_count(a + b) == line_break_count(a) + line_break_count(b),
    decreases a.len(),
{
    if a.len() == 0 {
        assert(a + b =~= b);
    } else {
        assert((a + b).skip(1) =~= a.skip(1) + b);
        assert((a + b)[0] == a[0]);
        lemma_line_break_count_concat(a.skip(1), b);
    }
}

/// Once line breaks are marked, a `<br />` can start at a character of the text only where
/// the text itself spells `<br />` there: the first `j` characters of `m` are those of
/// `<br />`, and so are the rest.
proof fn lemma_tag_only_where_spelled(m: Seq<char>, j: int)
    requires
        1 <= j <= 6,
        m.len() >= j,
        forall|k: int| 0 <= k < j ==> m[k] == line_break()[k],
        breaks_marked(m).len() >= 6,
        breaks_marked(m).take(6) == line_break(),
    ensures
        m.len() >= 6,
        m.take(6) == line_break(),
    decreases 6 - j,
{
    reveal_strlit("<br />");
    let br = line_break();
    assert(br =~= seq!['<', 'b', 'r', ' ', '/', '>']);
    if j == 6 {
        assert(m.take(6) =~= br);
    } else {
        let a = m.take(j);
        let b = m.skip(j);
        assert(m =~= a + b);
        assert(free_of(a, '\n'));
        assert(free_of(a, '\r'));
        lemma_breaks_marked_plain(a);
        lemma_breaks_marked_concat(a, b);
        let s = breaks_marked(m);
        assert(s == a + breaks_marked(b));
        if b.len() == 0 {
            assert(breaks_marked(b) =~= Seq::<char>::empty());
            assert(s.len() == j);
        } else {
            lemma_breaks_marked_front(b);
            assert(s[j] == marked_char(b[0])[0]);
            assert(s.take(6)[j] == br[j]);
            assert(b[0] == m[j]);
            lemma_tag_only_where_spelled(m, j + 1);
        }
    }
}

/// With line breaks marked, the text holds one `<br />` per line break, and one per
/// `<br />` it spelled itself.
proof fn lemma_breaks_marked_counts(m: Seq<char>)
    ensures
        occurrences(breaks_marked(m), line_break()) == line_break_count(m) + occurrences(
            m,
            line_break(),
        ),
    decreases m.len(),
{
    reveal_strlit("<br />");
    let br = line_break();
    assert(br =~= seq!['<', 'b', 'r', ' ', '/', '>']);
    if m.len() > 0 {
        lemma_breaks_marked_front(m);
        let s = breaks_marked(m);
        let r = breaks_marked(m.skip(1));
        if m[0] == '\n' || m[0] == '\r' {
            lemma_breaks_marked_counts(m.skip(1));
            assert(s =~= br + r);
            assert(s.take(6) =~= br);
            assert(s.skip(6) =~= r);
            if m.len() >= 6 {
                assert(m.take(6)[0] == m[0]);
            }
        } else if m[0] == '<' && m.len() >= 6 && m.take(6) == br {
            let rest = m.skip(6);
            assert(m =~= br + rest);
            assert(free_of(br, '\n'));
            assert(free_of(br, '\r'));
            lemma_breaks_marked_plain(br);
            lemma_breaks_marked_concat(br, rest);
            lemma_line_break_count_concat(br, rest);
            lemma_breaks_marked_counts(rest);
            assert(s == br + breaks_marked(rest));
            assert(s.take(6) =~= br);
            assert(s.skip(6) =~= breaks_marked(rest));
        } else {
            lemma_breaks_marked_counts(m.skip(1));
            assert(s =~= seq![m[0]] + r);
            assert(s.skip(1) =~= r);
            if s.len() >= 6 && s.take(6) == br {
                assert(s.take(6)[0] == m[0]);
                assert(m[0] == br[0]);
                lemma_tag_only_where_spelled(m, 1);
            }
            if m.len() >= 6 {
                assert(m.take(6)[0] == m[0]);
            }
        }
    }
}

/// A sentence that ends in a line break keeps every one of its line breaks: its element
/// ends with `</s>` followed by one `<br />` per `\n` or `\r` in the sentence. (Text that
/// spells a `<br />` of its own, which would be counted too, is left out.)
pub proof fn lemma_sentence_keeps_every_line_break(m: Seq<char>)
    requires
        m.len() >= 2,
        occurrences(m, line_break()) == 0,
        m.last() == '\n' || m.last() == '\r',
    ensures
        has_suffix(sentence(m), "</s>"@ + repeated(line_break(), line_break_count(m))),
{
    reveal_strlit("<br />");
    let br = line_break();
    assert(br =~= seq!['<', 'b', 'r', ' ', '/', '>']);
    let s = breaks_marked(m);
    lemma_breaks_marked_counts(m);
    lemma_breaks_marked_len(m.drop_last());
    let front = breaks_marked(m.drop_last());
    assert(s == front + br);
    assert(s.skip(s.len() - br.len()) =~= br);
    assert(s.len() >= 7);
    assert(s != br);
    let body = replaced(s, br, Seq::empty());
    let tail = "</s>"@ + repeated(br, line_break_count(m));
    let out = "<s>"@ + body + "</s>"@ + repeated(br, occurrences(s, br));
    assert(sentence(m) == out);
    assert(out =~= ("<s>"@ + body) + tail);
    assert(out.skip(out.len() - tail.len()) =~= tail);
}

} // verus!
