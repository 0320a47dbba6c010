//! Which paths of a workspace the index leaves out.
//!
//! The rules are lines in gitignore syntax. Whatever they say, the
//! internal-data directory and the version-control directory are left out.

use vstd::prelude::*;
use crate::paths::{
    in_internal_dir, in_vcs_dir, is_internal_key, is_vcs_key, key_of, lemma_parent_name_join,
    parent_key, parent_of, relative_key,
};
use crate::seqs::{lemma_views_push, views};
use crate::text::{chars_of, first_index_of, owned, substring};

verus! {

/// The rules that a new workspace starts with.
pub const DEFAULT_LOREIGNORE: &'static str =
    "# Lore Designer - File Explorer Ignore Rules\n# Syntax: same as .gitignore\n\n# Internal directories\n.lore/\n.git/\n\n# Build artifacts\nnode_modules/\ndist/\nbuild/\ntarget/\n\n# System files\n.DS_Store\nThumbs.db\ndesktop.ini\n\n# Temporary files\n*.tmp\n*.bak\n~*\n*.swp\n*.swo\n\n# User can add custom patterns below:\n";

/// `ignore::gitignore::Gitignore`, the compiled matcher. Nothing of its
/// inside is known here.
#[verifier::external_type_specification]
#[verifier::external_body]
pub struct ExGitignore(::ignore::gitignore::Gitignore);

/// `ignore::gitignore::GitignoreBuilder`, which takes the lines of the rules.
/// Nothing of its inside is known here.
#[verifier::external_type_specification]
#[verifier::external_body]
pub struct ExGitignoreBuilder(::ignore::gitignore::GitignoreBuilder);

/// `ignore::Error`, the error of a builder that cannot build its matcher.
/// Nothing of its inside is known here.
#[verifier::external_type_specification]
#[verifier::external_body]
pub struct ExIgnoreError(::ignore::Error);

/// A set of rules: the directory they are relative to and the lines, in the
/// order in which they were offered.
pub struct RuleSet {
    pub root: Seq<char>,
    pub lines: Seq<Seq<char>>,
}

/// The text of each rule that a builder holds, in order: for each of its
/// globs, the text that the glob was written as.
pub uninterp spec fn builder_rules(builder: ::ignore::gitignore::GitignoreBuilder) -> Seq<
    Seq<char>,
>;

/// The root that a builder holds.
pub uninterp spec fn builder_root(builder: ::ignore::gitignore::GitignoreBuilder) -> Seq<char>;

/// The text of each rule that a matcher holds, in order: for each of its
/// globs, the text that the glob was written as.
pub uninterp spec fn matcher_rules(matcher: ::ignore::gitignore::Gitignore) -> Seq<Seq<char>>;

/// The root that a matcher holds.
pub uninterp spec fn matcher_root(matcher: ::ignore::gitignore::Gitignore) -> Seq<char>;

/// What a builder makes of one line that is handed to it: the text of the
/// rule that it stores for the line, or nothing where the line adds no rule.
pub uninterp spec fn rule_of_line(line: Seq<char>) -> Option<Seq<char>>;

/// The root that a builder keeps of the root it is given.
pub uninterp spec fn root_kept(root: Seq<char>) -> Seq<char>;

/// What the rules say of one path.
#[derive(Debug, Clone, Copy, PartialEq, Eq, Structural)]
pub enum RuleMatch {
    /// No rule matches the path.
    Undecided,
    /// The rule of highest precedence that matches the path leaves it out.
    Ignore,
    /// The rule of highest precedence that matches the path takes it back in.
    Whitelist,
}

/// What a matcher that holds the root `root` and the rules `rules`, in this
/// order, says of the path `key` alone, whatever lies above it.
pub uninterp spec fn rule_verdict(
    root: Seq<char>,
    rules: Seq<Seq<char>>,
    key: Seq<char>,
    is_dir: bool,
) -> RuleMatch;

/// Whether a builder that holds the root `root` and the rules `rules`, in
/// this order, can build its matcher.
pub uninterp spec fn rules_compile(root: Seq<char>, rules: Seq<Seq<char>>) -> bool;

/// Whether a line adds no rule whatever else it holds: it is empty, or it
/// is a comment, which starts with `#`.
pub open spec fn adds_no_rule(line: Seq<char>) -> bool {
    line.len() == 0 || line[0] == '#'
}

/// Whether none of the lines adds a rule.
pub open spec fn no_rules(lines: Seq<Seq<char>>) -> bool {
    forall|i: int| 0 <= i < lines.len() ==> adds_no_rule(#[trigger] lines[i])
}

/// The rules that a builder holds once the lines were handed to it in order:
/// the rule of each line that adds one.
pub open spec fn rules_of(lines: Seq<Seq<char>>) -> Seq<Seq<char>>
    decreases lines.len(),
{
    if lines.len() == 0 {
        Seq::empty()
    } else {
        let before = rules_of(lines.drop_last());
        match rule_of_line(lines.last()) {
            Some(rule) => before.push(rule),
            None => before,
        }
    }
}

/// `GitignoreBuilder::new`: a builder without rules. It keeps the root it
/// is given, without a `./` at its start.
#[verifier::external_body]
fn builder_new(root: &str) -> (builder: ::ignore::gitignore::GitignoreBuilder)
    ensures
        builder_root(builder) == root_kept(root@),
        builder_rules(builder) == Seq::<Seq<char>>::empty(),
{
    ::ignore::gitignore::GitignoreBuilder::new(root)
}

/// `GitignoreBuilder::add_line`: hands one line to the builder. Where the
/// line is a valid glob the builder stores it, trimmed, behind the rules it
/// holds. A comment, an empty line and a line that is no valid glob leave
/// the builder as it was; its error is passed over.
#[verifier::external_body]
fn builder_add_line(builder: &mut ::ignore::gitignore::GitignoreBuilder, line: &str)
    ensures
        builder_root(*final(builder)) == builder_root(*old(builder)),
        builder_rules(*final(builder)) == match rule_of_line(line@) {
            Some(rule) => builder_rules(*old(builder)).push(rule),
            None => builder_rules(*old(builder)),
        },
        adds_no_rule(line@) ==> builder_rules(*final(builder)) == builder_rules(*old(builder)),
{
    let _ = builder.add_line(None, line);
}

/// `GitignoreBuilder::build`: the matcher with the root and the rules of the
/// builder, or the error of the glob set that could not be built. Whether
/// it can be built rests on the root and the rules alone, and the glob set
/// of no rules is always built.
#[verifier::external_body]
fn builder_build(builder: &::ignore::gitignore::GitignoreBuilder) -> (r: Result<
    ::ignore::gitignore::Gitignore,
    ::ignore::Error,
>)
    ensures
        r is Ok <==> rules_compile(builder_root(*builder), builder_rules(*builder)),
        r matches Ok(matcher) ==> matcher_root(matcher) == builder_root(*builder)
            && matcher_rules(matcher) == builder_rules(*builder),
        builder_rules(*builder).len() == 0 ==> r is Ok,
{
    builder.build()
}

/// `Gitignore::matched`: what the rule of highest precedence that matches
/// `key` says of it, or that no rule matches it. The parents of `key` are
/// not looked at.
#[verifier::external_body]
fn matcher_verdict(matcher: &::ignore::gitignore::Gitignore, key: &str, is_dir: bool) -> (r:
    RuleMatch)
    ensures
        r == rule_verdict(matcher_root(*matcher), matcher_rules(*matcher), key@, is_dir),
{
    match matcher.matched(key, is_dir) {
        ::ignore::Match::None => RuleMatch::Undecided,
        ::ignore::Match::Ignore(_) => RuleMatch::Ignore,
        ::ignore::Match::Whitelist(_) => RuleMatch::Whitelist,
    }
}

/// The `Display` text of an `ignore::Error`.
#[verifier::external_body]
fn error_text(error: &::ignore::Error) -> (r: String) {
    error.to_string()
}

/// Why a set of rules could not be used.
#[derive(Debug)]
pub enum IgnoreError {
    /// The rules could not be compiled; the text says why.
    InvalidRules(String),
}

/// A line without the carriage return at its end, if it has one.
pub open spec fn without_cr(line: Seq<char>) -> Seq<char> {
    if line.len() > 0 && line.last() == '\r' {
        line.drop_last()
    } else {
        line
    }
}

/// The lines of a text. A line ends at a line feed; the line feed, and a
/// carriage return before it, are not part of the line. What follows the
/// last line feed is a line of its own unless it is empty.
pub open spec fn lines_of(text: Seq<char>) -> Seq<Seq<char>>
    decreases text.len(),
{
    if text.len() == 0 {
        Seq::empty()
    } else {
        let i = first_index_of(text, '\n');
        if i >= text.len() {
            seq![text]
        } else {
            proof {
                crate::text::lemma_first_index_of(text, '\n');
            }
            seq![without_cr(text.take(i))] + lines_of(text.skip(i + 1))
        }
    }
}

/// A text without the byte-order marks at its start.
pub open spec fn without_bom(text: Seq<char>) -> Seq<char>
    decreases text.len(),
{
    if text.len() > 0 && text[0] == '\u{feff}' {
        without_bom(text.drop_first())
    } else {
        text
    }
}

/// The rule lines of the text of a rules file.
pub open spec fn rule_lines(text: Seq<char>) -> Seq<Seq<char>> {
    lines_of(without_bom(text))
}

/// What a matcher that holds the root `root` and the rules `held` says of
/// `key` once the directories above it are looked at: what it says of `key`
/// itself where a rule matches it, and else what it says of the directory
/// that holds it, and so on upwards. A path that no rule matches is thus
/// left out with the directory it lies in.
pub open spec fn verdict_from(
    root: Seq<char>,
    held: Seq<Seq<char>>,
    key: Seq<char>,
    is_dir: bool,
) -> RuleMatch
    decreases key.len(),
{
    match rule_verdict(root, held, key, is_dir) {
        RuleMatch::Undecided => match parent_of(key) {
            Some(parent) => {
                proof {
                    lemma_parent_name_join(key);
                }
                verdict_from(root, held, parent, true)
            },
            None => RuleMatch::Undecided,
        },
        decided => decided,
    }
}

/// Whether `path` is left out under `rules`: it lies in the workspace, and
/// it lies in the internal-data or version-control directory, or the matcher
/// for these rules says to ignore it or, saying nothing of it, a directory
/// above it. A path outside the workspace is never left out.
pub open spec fn ignores(rules: RuleSet, path: Seq<char>, is_dir: bool) -> bool {
    match key_of(rules.root, path) {
        None => false,
        Some(key) => is_internal_key(key) || is_vcs_key(key) || verdict_from(
            root_kept(rules.root),
            rules_of(rules.lines),
            key,
            is_dir,
        ) == RuleMatch::Ignore,
    }
}

/// A path of which the rules say nothing is left out exactly when the
/// directory that holds it is: what lies below a directory that is left out
/// is left out with it.
pub proof fn lemma_left_out_with_directory(
    root: Seq<char>,
    held: Seq<Seq<char>>,
    key: Seq<char>,
    is_dir: bool,
)
    requires
        parent_of(key) is Some,
        rule_verdict(root, held, key, is_dir) == RuleMatch::Undecided,
    ensures
        verdict_from(root, held, key, is_dir) == verdict_from(
            root,
            held,
            parent_of(key).unwrap(),
            true,
        ),
{
}

/// What the rules say of a path itself stands before what they say of the
/// directories above it.
pub proof fn lemma_own_rule_first(
    root: Seq<char>,
    held: Seq<Seq<char>>,
    key: Seq<char>,
    is_dir: bool,
)
    requires
        rule_verdict(root, held, key, is_dir) != RuleMatch::Undecided,
    ensures
        verdict_from(root, held, key, is_dir) == rule_verdict(root, held, key, is_dir),
{
}

/// Lines that add no rule leave a builder without rules.
pub proof fn lemma_no_rules_of(lines: Seq<Seq<char>>)
    requires
        forall|i: int|
            0 <= i < lines.len() ==> rule_of_line(#[trigger] lines[i]) is None,
    ensures
        rules_of(lines).len() == 0,
    decreases lines.len(),
{
    if lines.len() > 0 {
        let before = lines.drop_last();
        assert forall|i: int| 0 <= i < before.len() implies rule_of_line(
            #[trigger] before[i],
        ) is None by {
            assert(before[i] == lines[i]);
        }
        lemma_no_rules_of(before);
        assert(lines.last() == lines[lines.len() - 1]);
    }
}

/// Whatever the rules are, a path in the internal-data directory is left out.
pub proof fn lemma_internal_always_ignored(rules: RuleSet, path: Seq<char>, is_dir: bool)
    requires
        key_of(rules.root, path) is Some,
        is_internal_key(key_of(rules.root, path).unwrap()),
    ensures
        ignores(rules, path, is_dir),
{
}

/// Whatever the rules are, a path in the version-control directory is left out.
pub proof fn lemma_vcs_always_ignored(rules: RuleSet, path: Seq<char>, is_dir: bool)
    requires
        key_of(rules.root, path) is Some,
        is_vcs_key(key_of(rules.root, path).unwrap()),
    ensures
        ignores(rules, path, is_dir),
{
}

/// The lines from `start` on, where the first line feed from there is at `i`.
proof fn lemma_lines_of_skip(text: Seq<char>, start: int, i: int)
    requires
        0 <= start <= i < text.len(),
        text[i] == '\n',
        forall|j: int| start <= j < i ==> text[j] != '\n',
    ensures
        lines_of(text.skip(start)) == seq![without_cr(text.subrange(start, i))] + lines_of(
            text.skip(i + 1),
        ),
{
    let t = text.skip(start);
    crate::text::lemma_first_index_is(t, '\n', i - start);
    assert(t.take(i - start) =~= text.subrange(start, i));
    assert(t.skip(i - start + 1) =~= text.skip(i + 1));
}

/// The lines from `start` on, where no line feed follows.
proof fn lemma_lines_of_rest(text: Seq<char>, start: int)
    requires
        0 <= start <= text.len(),
        forall|j: int| start <= j < text.len() ==> text[j] != '\n',
    ensures
        lines_of(text.skip(start)) == if start == text.len() {
            Seq::<Seq<char>>::empty()
        } else {
            seq![text.skip(start)]
        },
{
    let t = text.skip(start);
    if start < text.len() {
        crate::text::lemma_first_index_is(t, '\n', t.len() as int);
    }
}

/// The rule lines of the text of a rules file.
pub fn split_rule_lines(text: &str) -> (lines: Vec<String>)
    ensures
        views(lines@) == rule_lines(text@),
{
    let chars = chars_of(text);
    let n = chars.len();
    let mut first: usize = 0;
    proof {
        assert(text@.skip(0) =~= text@);
    }
    while first < n && chars[first] == '\u{feff}'
        invariant
            first <= n,
            n == chars.len(),
            chars@ == text@,
            without_bom(text@) == without_bom(text@.skip(first as int)),
        decreases n - first,
    {
        proof {
            assert(text@.skip(first as int).drop_first() =~= text@.skip(first + 1));
        }
        first += 1;
    }
    proof {
        if first < n {
            assert(text@.skip(first as int)[0] == chars@[first as int]);
        }
        assert(text@.skip(0) =~= text@);
    }
    let ghost body = text@.skip(first as int);
    assert(without_bom(text@) == body);
    let mut lines: Vec<String> = Vec::new();
    let mut start: usize = first;
    let mut i: usize = first;
    proof {
        assert(views(lines@) =~= Seq::<Seq<char>>::empty());
        assert(body.skip(0) =~= body);
    }
    while i < n
        invariant
            first <= start <= i <= n,
            n == chars.len(),
            chars@ == text@,
            body == text@.skip(first as int),
            forall|j: int| start <= j < i ==> text@[j] != '\n',
            lines_of(body) == views(lines@) + lines_of(text@.skip(start as int)),
        decreases n - i,
    {
        if chars[i] == '\n' {
            let end: usize = if i > start && chars[i - 1] == '\r' {
                (i - 1) as usize
            } else {
                i
            };
            let line = substring(text, start, end);
            proof {
                lemma_lines_of_skip(text@, start as int, i as int);
                let raw = text@.subrange(start as int, i as int);
                if i > start {
                    assert(raw.last() == text@[i - 1]);
                }
                assert(line@ =~= without_cr(raw));
                lemma_views_push(lines@, line);
                assert(views(lines@).push(line@) + lines_of(text@.skip(i + 1)) =~= views(lines@)
                    + (seq![line@] + lines_of(text@.skip(i + 1))));
            }
            lines.push(line);
            start = i + 1;
        }
        i += 1;
    }
    proof {
        lemma_lines_of_rest(text@, start as int);
    }
    if start < n {
        let line = substring(text, start, n);
        proof {
            assert(line@ =~= text@.skip(start as int));
            lemma_views_push(lines@, line);
            assert(views(lines@).push(line@) =~= views(lines@) + seq![line@]);
        }
        lines.push(line);
    } else {
        proof {
            assert(views(lines@) + Seq::<Seq<char>>::empty() =~= views(lines@));
        }
    }
    lines
}

/// Hands the lines, in order, to a new builder at `root` and has it build
/// its matcher. It gives a matcher exactly where the rules of these lines
/// can be compiled; lines that add no rule always can.
fn compile(root: &str, lines: &Vec<String>) -> (r: Result<
    ::ignore::gitignore::Gitignore,
    ::ignore::Error,
>)
    ensures
        r is Ok <==> rules_compile(root_kept(root@), rules_of(views(lines@))),
        r matches Ok(matcher) ==> matcher_root(matcher) == root_kept(root@) && matcher_rules(
            matcher,
        ) == rules_of(views(lines@)),
        no_rules(views(lines@)) ==> r is Ok,
{
    let mut builder = builder_new(root);
    let mut i: usize = 0;
    proof {
        assert(views(lines@.take(0)) =~= Seq::<Seq<char>>::empty());
    }
    while i < lines.len()
        invariant
            i <= lines.len(),
            builder_root(builder) == root_kept(root@),
            builder_rules(builder) == rules_of(views(lines@.take(i as int))),
            no_rules(views(lines@.take(i as int))) ==> builder_rules(builder).len() == 0,
        decreases lines.len() - i,
    {
        let ghost before = builder_rules(builder);
        builder_add_line(&mut builder, lines[i].as_str());
        proof {
            crate::seqs::lemma_views_take_next(lines@, i as int);
            let seen = views(lines@.take(i + 1));
            assert(seen.drop_last() =~= views(lines@.take(i as int)));
            assert(seen.last() == lines@[i as int]@);
            if no_rules(seen) {
                assert(adds_no_rule(seen[i as int]));
                assert forall|k: int| 0 <= k < i implies adds_no_rule(
                    #[trigger] views(lines@.take(i as int))[k],
                ) by {
                    assert(views(lines@.take(i as int))[k] == seen[k]);
                }
            }
        }
        i += 1;
    }
    proof {
        crate::seqs::lemma_views_take_all(lines@);
    }
    builder_build(&builder)
}

/// Decides which paths of one workspace are left out.
pub struct IgnoreMatcher {
    gitignore: ::ignore::gitignore::Gitignore,
    workspace_path: String,
    lines: Vec<String>,
}

impl View for IgnoreMatcher {
    type V = RuleSet;

    closed spec fn view(&self) -> RuleSet {
        RuleSet { root: self.workspace_path@, lines: views(self.lines@) }
    }
}

impl IgnoreMatcher {
    /// The matcher was built at the workspace path from the lines held here.
    #[verifier::type_invariant]
    spec fn compiled(self) -> bool {
        &&& matcher_root(self.gitignore) == root_kept(self.workspace_path@)
        &&& matcher_rules(self.gitignore) == rules_of(views(self.lines@))
    }

    /// The text of the rules to start from: what the rules file holds, or
    /// the default rules where there is no file yet.
    pub fn rules_or_default(existing: Option<String>) -> (r: String)
        ensures
            match existing {
                Some(text) => r@ == text@,
                None => r@ == DEFAULT_LOREIGNORE@,
            },
    {
        match existing {
            Some(text) => text,
            None => owned(DEFAULT_LOREIGNORE),
        }
    }

    /// The matcher of the workspace at `workspace_path` for the rules in
    /// `rules`, the text of the rules file. It is given exactly where the
    /// lines of the text can be compiled at the workspace path, and a text
    /// of nothing but empty lines and comments always can.
    pub fn new(workspace_path: &str, rules: &str) -> (r: Result<IgnoreMatcher, IgnoreError>)
        ensures
            r is Ok <==> rules_compile(root_kept(workspace_path@), rules_of(rule_lines(rules@))),
            r matches Ok(m) ==> m@ == (RuleSet {
                root: workspace_path@,
                lines: rule_lines(rules@),
            }),
            no_rules(rule_lines(rules@)) ==> r is Ok,
    {
        let lines = split_rule_lines(rules);
        let built = compile(workspace_path, &lines);
        Self::from_build(workspace_path, lines, built)
    }

    /// The matcher for what the builder gave when it was offered `lines` at
    /// `workspace_path`: a matcher for these rules where it gave one, and
    /// the refusal of the rules where it gave an error.
    fn from_build(
        workspace_path: &str,
        lines: Vec<String>,
        built: Result<::ignore::gitignore::Gitignore, ::ignore::Error>,
    ) -> (r: Result<IgnoreMatcher, IgnoreError>)
        requires
            built matches Ok(matcher) ==> matcher_root(matcher) == root_kept(workspace_path@)
                && matcher_rules(matcher) == rules_of(views(lines@)),
        ensures
            r is Ok <==> built is Ok,
            r matches Ok(m) ==> m@ == (RuleSet { root: workspace_path@, lines: views(lines@) }),
    {
        match built {
            Ok(gitignore) => Ok(
                IgnoreMatcher { gitignore, workspace_path: owned(workspace_path), lines },
            ),
            Err(e) => Err(IgnoreError::InvalidRules(error_text(&e))),
        }
    }

    /// The path of the workspace that the rules are relative to.
    pub fn root(&self) -> (r: &String)
        ensures
            r@ == self@.root,
    {
        &self.workspace_path
    }

    /// Takes up the rules in `rules`, the new text of the rules file. They
    /// are taken up exactly where the lines of the text can be compiled at
    /// the workspace path; where they cannot, the matcher keeps the rules
    /// it had. A text of nothing but empty lines and comments always can.
    pub fn reload(&mut self, rules: &str) -> (r: Result<(), IgnoreError>)
        ensures
            r is Ok <==> rules_compile(
                root_kept(old(self)@.root),
                rules_of(rule_lines(rules@)),
            ),
            final(self)@.root == old(self)@.root,
            r is Ok ==> final(self)@.lines == rule_lines(rules@),
            r is Err ==> final(self)@ == old(self)@,
            no_rules(rule_lines(rules@)) ==> r is Ok,
    {
        proof {
            use_type_invariant(&*self);
        }
        let lines = split_rule_lines(rules);
        let built = compile(self.workspace_path.as_str(), &lines);
        match Self::from_build(self.workspace_path.as_str(), lines, built) {
            Ok(fresh) => {
                *self = fresh;
                Ok(())
            },
            Err(e) => Err(e),
        }
    }

    /// What the rules say of `key` once the directories above it are looked at.
    fn verdict(&self, key: &str, is_dir: bool) -> (r: RuleMatch)
        ensures
            r == verdict_from(root_kept(self@.root), rules_of(self@.lines), key@, is_dir),
    {
        proof {
            use_type_invariant(self);
        }
        let ghost root = root_kept(self@.root);
        let ghost lines = rules_of(self@.lines);
        let mut current = owned(key);
        let mut as_dir = is_dir;
        loop
            invariant
                root == root_kept(self@.root),
                lines == rules_of(self@.lines),
                matcher_root(self.gitignore) == root,
                matcher_rules(self.gitignore) == lines,
                verdict_from(root, lines, key@, is_dir) == verdict_from(
                    root,
                    lines,
                    current@,
                    as_dir,
                ),
            decreases current@.len(),
        {
            let own = matcher_verdict(&self.gitignore, current.as_str(), as_dir);
            match own {
                RuleMatch::Undecided => {},
                _ => {
                    return own;
                },
            }
            match parent_key(current.as_str()) {
                None => {
                    return RuleMatch::Undecided;
                },
                Some(parent) => {
                    proof {
                        lemma_parent_name_join(current@);
                    }
                    current = parent;
                    as_dir = true;
                },
            }
        }
    }

    /// Whether `path` is left out of the index. `is_dir` says whether the
    /// path is a directory, which rules that end in a slash ask for. A path
    /// of which the rules say nothing is left out with the directory above it.
    pub fn should_ignore(&self, path: &str, is_dir: bool) -> (r: bool)
        ensures
            r == ignores(self@, path@, is_dir),
    {
        match relative_key(self.workspace_path.as_str(), path) {
            None => false,
            Some(key) => {
                if in_internal_dir(key.as_str()) || in_vcs_dir(key.as_str()) {
                    true
                } else {
                    matches!(self.verdict(key.as_str(), is_dir), RuleMatch::Ignore)
                }
            },
        }
    }
}

} // verus!
