//! Front matter: the block between two lines of dashes at the start of a
//! text, and what follows it.

use vstd::prelude::*;
use crate::model::text_of;
use crate::text::{chars_match_at, chars_of, owned, substring};

verus! {

/// Whether a character is white space, by the rules of Unicode.
pub uninterp spec fn is_whitespace_char(c: char) -> bool;

/// Whether a text can be loaded as a stream of YAML documents.
pub uninterp spec fn is_yaml(text: Seq<char>) -> bool;

/// What the front-matter parser finds in a text: the front matter and the
/// content after it, or nothing where the text has no front matter.
pub uninterp spec fn front_matter_of(text: Seq<char>) -> Option<(Seq<char>, Seq<char>)>;

/// `char::is_whitespace`: whether the character has the property White_Space.
#[verifier::external_body]
fn is_whitespace(c: char) -> (r: bool)
    ensures
        r == is_whitespace_char(c),
{
    c.is_whitespace()
}

/// `YamlLoader::load_from_str`: whether the text is loaded without an error.
#[verifier::external_body]
fn yaml_loads(text: &str) -> (r: bool)
    ensures
        r == is_yaml(text@),
{
    ::yaml_rust2::YamlLoader::load_from_str(text).is_ok()
}

/// The front matter of a file and what follows it.
#[derive(Debug, PartialEq, Eq)]
pub struct ParsedFrontmatter {
    /// The front matter, without the lines of dashes around it.
    pub matter: String,
    /// What follows the front matter.
    pub content: String,
}

/// What a `ParsedFrontmatter` stands for, if there is one.
pub open spec fn parsed_of(parsed: Option<ParsedFrontmatter>) -> Option<(Seq<char>, Seq<char>)> {
    match parsed {
        Some(p) => Some((p.matter@, p.content@)),
        None => None,
    }
}

/// `Matter::<YAML>::parse` of gray_matter, with `---` as the delimiter: the
/// front matter and the content of the text where the parser found front
/// matter (its `data` is there), and nothing where it found none.
#[verifier::external_body]
fn parse_matter(text: &str) -> (r: Option<ParsedFrontmatter>)
    ensures
        parsed_of(r) == front_matter_of(text@),
{
    let parsed = ::gray_matter::Matter::<::gray_matter::engine::YAML>::new().parse(text);
    match parsed.data {
        Some(_) => Some(ParsedFrontmatter { matter: parsed.matter, content: parsed.content }),
        None => None,
    }
}

/// What the front-matter parser finds in a text.
pub fn parse_frontmatter(text: &str) -> (r: Option<ParsedFrontmatter>)
    ensures
        parsed_of(r) == front_matter_of(text@),
{
    parse_matter(text)
}

/// The three dashes that open and close front matter.
pub open spec fn dashes() -> Seq<char> {
    seq!['-', '-', '-']
}

/// A text without the white space at its start.
pub open spec fn trimmed_start(s: Seq<char>) -> Seq<char>
    decreases s.len(),
{
    if s.len() > 0 && is_whitespace_char(s[0]) {
        trimmed_start(s.drop_first())
    } else {
        s
    }
}

/// A text without the white space at its end.
pub open spec fn trimmed_end(s: Seq<char>) -> Seq<char>
    decreases s.len(),
{
    if s.len() > 0 && is_whitespace_char(s.last()) {
        trimmed_end(s.drop_last())
    } else {
        s
    }
}

/// A text without the white space at its start and at its end.
pub open spec fn trimmed(s: Seq<char>) -> Seq<char> {
    trimmed_end(trimmed_start(s))
}

/// The index at which `pattern` occurs first in `s`, if it occurs.
pub open spec fn find_text(s: Seq<char>, pattern: Seq<char>) -> Option<int>
    decreases s.len(),
{
    if pattern.is_prefix_of(s) {
        Some(0)
    } else if s.len() == 0 {
        None
    } else {
        match find_text(s.drop_first(), pattern) {
            Some(i) => Some(i + 1),
            None => None,
        }
    }
}

/// The front matter and the content of a text.
///
/// A text has front matter where it starts with three dashes, three more
/// dashes follow somewhere, and what stands between them, trimmed, can be
/// loaded as YAML. Its content is then what follows the second dashes,
/// trimmed. Any other text has no front matter and is all content.
pub open spec fn extracted(text: Seq<char>) -> (Option<Seq<char>>, Seq<char>) {
    if dashes().is_prefix_of(text) {
        let rest = text.skip(3);
        match find_text(rest, dashes()) {
            Some(end) => {
                let matter = trimmed(rest.take(end));
                if is_yaml(matter) {
                    (Some(matter), trimmed(rest.skip(end + 3)))
                } else {
                    (None, text)
                }
            },
            None => (None, text),
        }
    } else {
        (None, text)
    }
}

/// Where `pattern` occurs first, it occurs, and not before.
pub proof fn lemma_find_text(s: Seq<char>, pattern: Seq<char>)
    ensures
        match find_text(s, pattern) {
            Some(i) => 0 <= i <= s.len() && pattern.is_prefix_of(s.skip(i)) && forall|j: int|
                0 <= j < i ==> !pattern.is_prefix_of(#[trigger] s.skip(j)),
            None => forall|j: int| 0 <= j <= s.len() ==> !pattern.is_prefix_of(#[trigger] s.skip(j)),
        },
    decreases s.len(),
{
    assert(s.skip(0) =~= s);
    if pattern.is_prefix_of(s) {
    } else if s.len() == 0 {
    } else {
        let t = s.drop_first();
        lemma_find_text(t, pattern);
        match find_text(t, pattern) {
            Some(i) => {
                assert(t.skip(i) =~= s.skip(i + 1));
                assert forall|j: int| 0 <= j < i + 1 implies !pattern.is_prefix_of(
                    #[trigger] s.skip(j),
                ) by {
                    if j > 0 {
                        assert(t.skip(j - 1) =~= s.skip(j));
                    }
                }
            },
            None => {
                assert forall|j: int| 0 <= j <= s.len() implies !pattern.is_prefix_of(
                    #[trigger] s.skip(j),
                ) by {
                    if j > 0 {
                        assert(t.skip(j - 1) =~= s.skip(j));
                    }
                }
            },
        }
    }
}

fn find_from(v: &Vec<char>, start: usize, pattern: &Vec<char>) -> (r: Option<usize>)
    requires
        start <= v.len(),
        pattern.len() > 0,
    ensures
        match r {
            Some(at) => start <= at && at + pattern.len() <= v.len() && find_text(
                v@.skip(start as int),
                pattern@,
            ) == Some(at - start),
            None => find_text(v@.skip(start as int), pattern@) is None,
        },
{
    let mut i: usize = start;
    let ghost whole = find_text(v@.skip(start as int), pattern@);
    while i < v.len()
        invariant
            start <= i <= v.len(),
            pattern.len() > 0,
            whole == find_text(v@.skip(start as int), pattern@),
            whole == match find_text(v@.skip(i as int), pattern@) {
                Some(k) => Some(k + i - start),
                None => None,
            },
        decreases v.len() - i,
    {
        let ghost rest = v@.skip(i as int);
        let here = chars_match_at(v, i, pattern);
        proof {
            if i + pattern.len() <= v.len() {
                assert(rest.subrange(0, pattern@.len() as int) =~= v@.subrange(
                    i as int,
                    i + pattern@.len(),
                ));
            }
            assert(here == pattern@.is_prefix_of(rest));
            assert(rest.drop_first() =~= v@.skip(i + 1));
        }
        if here {
            return Some(i);
        }
        i += 1;
    }
    proof {
        let rest = v@.skip(i as int);
        assert(rest.len() == 0);
        assert(!pattern@.is_prefix_of(rest));
    }
    None
}

fn trim_range(text: &str, v: &Vec<char>, from: usize, to: usize) -> (r: String)
    requires
        v@ == text@,
        from <= to <= v.len(),
    ensures
        r@ == trimmed(v@.subrange(from as int, to as int)),
{
    let ghost s = v@.subrange(from as int, to as int);
    let mut i: usize = from;
    proof {
        assert(v@.subrange(from as int, to as int) =~= s);
    }
    while i < to && is_whitespace(v[i])
        invariant
            from <= i <= to <= v.len(),
            s == v@.subrange(from as int, to as int),
            trimmed_start(s) == trimmed_start(v@.subrange(i as int, to as int)),
        decreases to - i,
    {
        proof {
            let t = v@.subrange(i as int, to as int);
            assert(t[0] == v@[i as int]);
            assert(t.drop_first() =~= v@.subrange(i + 1, to as int));
        }
        i += 1;
    }
    proof {
        let t = v@.subrange(i as int, to as int);
        if i < to {
            assert(t[0] == v@[i as int]);
        }
        assert(trimmed_start(s) == t);
    }
    let mut j: usize = to;
    while j > i && is_whitespace(v[j - 1])
        invariant
            i <= j <= to <= v.len(),
            trimmed(s) == trimmed_end(v@.subrange(i as int, j as int)),
        decreases j,
    {
        proof {
            let t = v@.subrange(i as int, j as int);
            assert(t.last() == v@[j - 1]);
            assert(t.drop_last() =~= v@.subrange(i as int, j - 1));
        }
        j -= 1;
    }
    proof {
        let t = v@.subrange(i as int, j as int);
        if j > i {
            assert(t.last() == v@[j - 1]);
        }
        assert(trimmed(s) == t);
    }
    substring(text, i, j)
}

/// The front matter and the content of a text. See `extracted`.
pub fn extract_frontmatter(text: &str) -> (r: (Option<String>, String))
    ensures
        text_of(r.0) == extracted(text@).0,
        r.1@ == extracted(text@).1,
{
    let v = chars_of(text);
    let dash = chars_of("---");
    proof {
        reveal_strlit("---");
        assert(dash@ =~= dashes());
    }
    if !chars_match_at(&v, 0, &dash) {
        return (None, owned(text));
    }
    match find_from(&v, 3, &dash) {
        None => (None, owned(text)),
        Some(at) => {
            proof {
                let rest = v@.skip(3);
                assert(rest.take(at - 3) =~= v@.subrange(3, at as int));
                assert(rest.skip(at - 3 + 3) =~= v@.subrange(at + 3, v@.len() as int));
            }
            let matter = trim_range(text, &v, 3, at);
            if yaml_loads(matter.as_str()) {
                let content = trim_range(text, &v, at + 3, v.len());
                (Some(matter), content)
            } else {
                (None, owned(text))
            }
        },
    }
}

/// Putting front matter and content together and taking them apart again
/// gives them back, trimmed, where the front matter holds no three dashes
/// and can be loaded as YAML.
pub proof fn lemma_extract_after_combine(matter: Seq<char>, content: Seq<char>)
    requires
        find_text(seq!['\n'] + matter + seq!['\n'], dashes()) is None,
        is_yaml(trimmed(seq!['\n'] + matter + seq!['\n'])),
    ensures
        ({
            let text = dashes() + seq!['\n'] + matter + seq!['\n'] + dashes() + seq!['\n', '\n']
                + content;
            &&& extracted(text).0 == Some(trimmed(seq!['\n'] + matter + seq!['\n']))
            &&& extracted(text).1 == trimmed(seq!['\n', '\n'] + content)
        }),
{
    let inner = seq!['\n'] + matter + seq!['\n'];
    let tail = seq!['\n', '\n'] + content;
    let text = dashes() + seq!['\n'] + matter + seq!['\n'] + dashes() + seq!['\n', '\n'] + content;
    let rest = text.skip(3);
    assert(text =~= dashes() + inner + dashes() + tail);
    assert(dashes() =~= text.subrange(0, 3));
    assert(rest =~= inner + dashes() + tail);
    lemma_find_text(inner, dashes());
    lemma_find_text(rest, dashes());
    let n = inner.len() as int;
    assert(rest.skip(n) =~= dashes() + tail);
    assert(dashes() =~= rest.skip(n).subrange(0, 3));
    assert(dashes().is_prefix_of(rest.skip(n)));
    match find_text(rest, dashes()) {
        Some(e) => {
            if e < n {
                // a match that starts in the front matter would end in it
                // or run into the closing dashes; both are ruled out
                lemma_no_early_match(inner, tail, e);
            }
            assert(e == n);
            assert(rest.take(n) =~= inner);
            assert(rest.skip(n + 3) =~= tail);
        },
        None => {
            assert(!dashes().is_prefix_of(rest.skip(n)));
        },
    }
}

/// Front matter that is closed by a line feed holds no start of three
/// dashes that the closing dashes could complete.
proof fn lemma_no_early_match(inner: Seq<char>, tail: Seq<char>, e: int)
    requires
        find_text(inner, dashes()) is None,
        inner.len() > 0,
        inner.last() == '\n',
        0 <= e < inner.len(),
    ensures
        !dashes().is_prefix_of((inner + dashes() + tail).skip(e)),
{
    let rest = inner + dashes() + tail;
    lemma_find_text(inner, dashes());
    let n = inner.len() as int;
    if dashes().is_prefix_of(rest.skip(e)) {
        let m = rest.skip(e).subrange(0, 3);
        assert(m =~= dashes());
        if e + 3 <= n {
            assert(inner.skip(e).subrange(0, 3) =~= m);
            assert(dashes().is_prefix_of(inner.skip(e)));
        } else {
            // the match covers the last character of the front matter
            assert(m[n - 1 - e] == rest[n - 1]);
            assert(rest[n - 1] == inner[n - 1]);
            assert(dashes()[n - 1 - e] == '-');
        }
    }
}

} // verus!
