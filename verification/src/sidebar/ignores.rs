//! Which file system events do not matter.
use vstd::prelude::*;

use super::git_dirs::load_ignored_tracked_paths;
use crate::bytes::{first_line, utf8_text};
use crate::paths::{FilePath, PathView};
use crate::tables::{KeySet, Table};
use crate::text;
use crate::values::Value;

verus! {

/// A matcher for ignore rules, of the crate `ignore`.
#[verifier::external_type_specification]
#[verifier::external_body]
pub struct ExGitignore(ignore::gitignore::Gitignore);

/// A builder of such matchers.
#[verifier::external_type_specification]
#[verifier::external_body]
pub struct ExGitignoreBuilder(ignore::gitignore::GitignoreBuilder);

/// The directory that a builder was made for, as text.
pub uninterp spec fn builder_root(builder: ignore::gitignore::GitignoreBuilder) -> Seq<char>;

/// The lines that a builder was given.
pub uninterp spec fn builder_lines(builder: ignore::gitignore::GitignoreBuilder) -> Seq<Seq<char>>;

/// The directory that a matcher was built for, as text.
pub uninterp spec fn matcher_root(matcher: ignore::gitignore::Gitignore) -> Seq<char>;

/// The lines that a matcher was built from.
pub uninterp spec fn matcher_lines(matcher: ignore::gitignore::Gitignore) -> Seq<Seq<char>>;

/// Whether the crate can build a matcher from these lines.
pub uninterp spec fn rules_build(lines: Seq<Seq<char>>) -> bool;

/// Whether some of these lines holds a rule.
pub uninterp spec fn some_rule(lines: Seq<Seq<char>>) -> bool;

/// Whether the rules that these lines hold, for files below a directory, ignore a path or one of
/// the directories above it.
pub uninterp spec fn rules_ignore(
    root: Seq<char>,
    lines: Seq<Seq<char>>,
    path: Seq<char>,
) -> bool;

/// Makes a builder by `GitignoreBuilder::new`. It has no lines.
#[verifier::external_body]
fn new_builder(root: &str) -> (builder: ignore::gitignore::GitignoreBuilder)
    ensures
        builder_root(builder) == root@,
        builder_lines(builder) == Seq::<Seq<char>>::empty(),
{
    ignore::gitignore::GitignoreBuilder::new(root)
}

/// Gives a builder a line by `GitignoreBuilder::add_line`. A line that is no rule is passed over:
/// it counts as given, and what it means is part of what the lines mean.
#[verifier::external_body]
fn add_rule(builder: &mut ignore::gitignore::GitignoreBuilder, line: &str)
    ensures
        builder_root(*final(builder)) == builder_root(*old(builder)),
        builder_lines(*final(builder)) == builder_lines(*old(builder)).push(line@),
{
    let _ = builder.add_line(None, line);
}

/// Builds a matcher by `GitignoreBuilder::build`, which can fail on rules that are too large
/// together. Without any line it does not fail.
#[verifier::external_body]
fn build_matcher(builder: &ignore::gitignore::GitignoreBuilder) -> (matcher: Option<
    ignore::gitignore::Gitignore,
>)
    ensures
        matcher is Some == rules_build(builder_lines(*builder)),
        builder_lines(*builder).len() == 0 ==> matcher is Some,
        matcher matches Some(built) ==> matcher_root(built) == builder_root(*builder)
            && matcher_lines(built) == builder_lines(*builder),
{
    builder.build().ok()
}

/// Makes a matcher without lines and without a rule by `Gitignore::empty`.
#[verifier::external_body]
fn empty_matcher() -> (matcher: ignore::gitignore::Gitignore)
    ensures
        matcher_lines(matcher) == Seq::<Seq<char>>::empty(),
        !some_rule(matcher_lines(matcher)),
{
    ignore::gitignore::Gitignore::empty()
}

/// Whether a matcher has a rule, by `Gitignore::is_empty`. Without lines it has none. Which lines
/// hold rules is left to the crate: the result is a function of the lines.
#[verifier::external_body]
fn has_rule(matcher: &ignore::gitignore::Gitignore) -> (yes: bool)
    ensures
        yes == some_rule(matcher_lines(*matcher)),
        matcher_lines(*matcher).len() == 0 ==> !yes,
{
    !matcher.is_empty()
}

/// A text without another one at its beginning.
pub open spec fn without_start(text: Seq<char>, start: Seq<char>) -> Seq<char> {
    if start.is_prefix_of(text) {
        text.skip(start.len() as int)
    } else {
        text
    }
}

/// What is left to match of a path for a directory, both as text.
pub open spec fn matched_part(root: Seq<char>, path: Seq<char>) -> Seq<char> {
    let path = without_start(path, "./"@);
    let root = without_start(root, "./"@);
    let here = crate::paths::path_of(crate::bytes::utf8("."@));
    if path.contains('/') && crate::paths::path_of(crate::bytes::utf8(root)) != here
        && root.is_prefix_of(path) {
        without_start(path.skip(root.len() as int), "/"@)
    } else {
        path
    }
}

/// Whether a path can be matched for a directory: what is left of its spelling does not begin at
/// the root.
pub open spec fn matchable(root: Seq<char>, path: Seq<char>) -> bool {
    let part = matched_part(root, path);
    part.len() == 0 || part[0] != '/'
}

/// Matches a path by `Gitignore::matched_path_or_any_parents`, as that of a file. The result is a
/// function of the directory, the lines and the path. Without a rule nothing is ignored. The outside
/// function panics where there is a rule and what it strips of the path leaves a leading slash. A
/// path comes to it as text.
#[verifier::external_body]
fn match_path(matcher: &ignore::gitignore::Gitignore, path: &str) -> (ignored: bool)
    requires
        some_rule(matcher_lines(*matcher)) ==> matchable(matcher_root(*matcher), path@),
    ensures
        ignored == (some_rule(matcher_lines(*matcher)) && rules_ignore(
            matcher_root(*matcher),
            matcher_lines(*matcher),
            path@,
        )),
{
    matcher.matched_path_or_any_parents(path, false).is_ignore()
}

fn take_start(text: &str, start: &str) -> (rest: String)
    ensures
        rest@ == without_start(text@, start@),
{
    match text::strip_prefix(text, start) {
        Some(rest) => rest.to_owned(),
        None => text.to_owned(),
    }
}

fn can_match_text(root: &str, path: &str) -> (yes: bool)
    ensures
        yes == matchable(root@, path@),
{
    let path = take_start(path, "./");
    let root = take_start(root, "./");
    let chars = text::chars_of(path.as_str());
    let has_slash = text::find(&chars, '/').is_some();
    let here = FilePath::parse(root.as_str()).same(&FilePath::parse("."));
    let mut part = path;
    if has_slash && !here {
        let rest = match text::strip_prefix(part.as_str(), root.as_str()) {
            Some(rest) => Some(take_start(rest, "/")),
            None => None,
        };
        if let Some(rest) = rest {
            part = rest;
        }
    }
    part.as_str().unicode_len() == 0 || part.as_str().get_char(0) != '/'
}

/// A line without the line break that ends it.
pub open spec fn unbroken(line: Seq<char>) -> Seq<char> {
    if line.len() > 0 && line.last() == '\n' {
        let line = line.drop_last();
        if line.len() > 0 && line.last() == '\r' {
            line.drop_last()
        } else {
            line
        }
    } else {
        line
    }
}

/// The lines of a file, up to the first that is not UTF-8.
pub open spec fn file_lines(bytes: Seq<u8>) -> Seq<Seq<char>>
    decreases bytes.len(),
    via file_lines_shrink
{
    if bytes.len() == 0 {
        Seq::empty()
    } else {
        let size = crate::bytes::line_size(bytes) as int;
        let line = bytes.take(size);
        if !vstd::utf8::valid_utf8(line) {
            Seq::empty()
        } else {
            seq![unbroken(vstd::utf8::decode_utf8(line))] + file_lines(bytes.skip(size))
        }
    }
}

#[via_fn]
proof fn file_lines_shrink(bytes: Seq<u8>) {
    crate::bytes::line_size_bounded(bytes);
}

/// A text without the byte order marks at its beginning.
pub open spec fn unmarked(line: Seq<char>) -> Seq<char>
    decreases line.len(),
{
    if line.len() > 0 && line[0] == '\u{feff}' {
        unmarked(line.skip(1))
    } else {
        line
    }
}

/// The lines of an ignore file.
pub open spec fn rule_lines(bytes: Seq<u8>) -> Seq<Seq<char>> {
    let lines = file_lines(bytes);
    if lines.len() > 0 {
        lines.update(0, unmarked(lines[0]))
    } else {
        lines
    }
}

fn without_break(line: &str) -> (rest: &str)
    ensures
        rest@ == unbroken(line@),
{
    let count: usize = line.unicode_len();
    if count > 0 && line.get_char(count - 1) == '\n' {
        if count > 1 && line.get_char(count - 2) == '\r' {
            let rest = line.substring_char(0, count - 2);
            assert(rest@ =~= line@.drop_last().drop_last());
            rest
        } else {
            let rest = line.substring_char(0, count - 1);
            assert(rest@ =~= line@.drop_last());
            rest
        }
    } else {
        line
    }
}

fn without_marks(line: &str) -> (rest: &str)
    ensures
        rest@ == unmarked(line@),
{
    let count: usize = line.unicode_len();
    let mut skip: usize = 0;
    assert(line@.skip(0) =~= line@);
    while skip < count && line.get_char(skip) == '\u{feff}'
        invariant
            count == line@.len(),
            skip <= count,
            unmarked(line@.skip(skip as int)) == unmarked(line@),
        decreases count - skip,
    {
        assert(line@.skip(skip as int).skip(1) =~= line@.skip(skip + 1));
        skip = skip + 1;
    }
    let rest = line.substring_char(skip, count);
    assert(rest@ =~= line@.skip(skip as int));
    rest
}

/// The ignore rules of a directory.
pub struct IgnoreRules {
    root: FilePath,
    matcher: ignore::gitignore::Gitignore,
}

/// The ignore rules of a directory.
#[verifier::ext_equal]
pub struct IgnoreRulesView {
    /// The directory as it was spelled.
    pub root: Seq<u8>,
    pub lines: Seq<Seq<char>>,
}

impl DeepView for IgnoreRules {
    type V = IgnoreRulesView;

    closed spec fn deep_view(&self) -> IgnoreRulesView {
        IgnoreRulesView { root: self.root.spelled(), lines: matcher_lines(self.matcher) }
    }
}

/// Whether rules ignore the path that bytes spell. A path that is no text is held against the rules
/// with replacements for what is not text.
pub open spec fn ignored_by(rules: IgnoreRulesView, path: Seq<u8>) -> bool {
    some_rule(rules.lines) && rules_ignore(
        crate::bytes::shown(rules.root),
        rules.lines,
        crate::bytes::shown(path),
    )
}

/// Whether rules can be held against the path that bytes spell.
pub open spec fn judges(rules: IgnoreRulesView, path: Seq<u8>) -> bool {
    some_rule(rules.lines) ==> matchable(
        crate::bytes::shown(rules.root),
        crate::bytes::shown(path),
    )
}

impl IgnoreRules {
    #[verifier::type_invariant]
    spec fn well_formed(&self) -> bool {
        some_rule(matcher_lines(self.matcher)) ==> matcher_root(self.matcher)
            == crate::bytes::shown(self.root.spelled())
    }

    /// Whether the rules can be held against a path.
    pub fn can_judge(&self, path: &FilePath) -> (yes: bool)
        ensures
            yes == judges(self.deep_view(), path.spelled()),
    {
        !has_rule(&self.matcher) || can_match_text(
            self.root.text().as_str(),
            path.text().as_str(),
        )
    }

    /// Whether the rules ignore a path.
    pub fn ignores(&self, path: &FilePath) -> (ignored: bool)
        requires
            judges(self.deep_view(), path.spelled()),
        ensures
            ignored == ignored_by(self.deep_view(), path.spelled()),
    {
        proof {
            use_type_invariant(self);
        }
        match_path(&self.matcher, path.text().as_str())
    }
}

/// The rules that an ignore file holds for a directory, if it could be read. Rules that no matcher
/// can be built from count as none.
pub open spec fn rules_of(worktree: Seq<u8>, content: Option<Seq<u8>>) -> IgnoreRulesView {
    let lines = match content {
        Some(bytes) => rule_lines(bytes),
        None => Seq::empty(),
    };
    IgnoreRulesView {
        root: worktree,
        lines: if rules_build(lines) || lines.len() == 0 {
            lines
        } else {
            Seq::empty()
        },
    }
}

/// Reads the ignore rules of a worktree from its `.gitignore`.
pub fn build_gitignore(worktree: &FilePath, content: Option<&Vec<u8>>) -> (rules: IgnoreRules)
    ensures
        rules.deep_view() == rules_of(
            worktree.spelled(),
            match content {
                Some(bytes) => Some(bytes@),
                None => None,
            },
        ),
{
    let spelling = worktree.text();
    let mut builder = new_builder(spelling.as_str());
    if let Some(bytes) = content {
        let mut at: usize = 0;
        let mut first = true;
        let mut more = true;
        let ghost all = file_lines(bytes@);
        let ghost wanted = rule_lines(bytes@);
        assert(bytes@.skip(0) =~= bytes@);
        assert(Seq::<Seq<char>>::empty() + file_lines(bytes@.skip(0)) =~= all);
        while more && at < bytes.len()
            invariant
                at <= bytes@.len(),
                all == file_lines(bytes@),
                wanted == rule_lines(bytes@),
                builder_root(builder) == spelling@,
                builder_lines(builder).len() <= all.len(),
                builder_lines(builder) == wanted.take(builder_lines(builder).len() as int),
                first <==> builder_lines(builder).len() == 0,
                more ==> all.skip(builder_lines(builder).len() as int) == file_lines(
                    bytes@.skip(at as int),
                ),
                !more ==> builder_lines(builder).len() == all.len(),
            decreases (bytes@.len() - at) + (if more { 1int } else { 0int }),
        {
            let ghost rest = bytes@.skip(at as int);
            let ghost done = builder_lines(builder).len() as int;
            let tail = vstd::slice::slice_subrange(bytes.as_slice(), at, bytes.len());
            assert(tail@ =~= rest);
            proof {
                crate::bytes::line_size_bounded(rest);
            }
            let size: usize = first_line(tail);
            let line = vstd::slice::slice_subrange(tail, 0, size);
            assert(line@ =~= rest.take(size as int));
            match utf8_text(line) {
                Some(text) => {
                    proof {
                        assert(file_lines(rest) =~= seq![unbroken(text@)] + file_lines(
                            rest.skip(size as int),
                        ));
                        assert(all.skip(done)[0] == unbroken(text@));
                        assert(all[done] == unbroken(text@));
                        assert(all.skip(done + 1) =~= all.skip(done).skip(1));
                        assert(file_lines(rest).skip(1) =~= file_lines(rest.skip(size as int)));
                        assert(rest.skip(size as int) =~= bytes@.skip(at + size));
                    }
                    let unbroken_line = without_break(text);
                    if first {
                        add_rule(&mut builder, without_marks(unbroken_line));
                    } else {
                        add_rule(&mut builder, unbroken_line);
                    }
                    first = false;
                    at = at + size;
                    assert(builder_lines(builder) =~= wanted.take(done + 1));
                },
                None => {
                    assert(file_lines(rest).len() == 0);
                    assert(all.skip(done).len() == 0);
                    more = false;
                },
            }
        }
        proof {
            if more {
                assert(file_lines(bytes@.skip(at as int)).len() == 0);
                assert(all.skip(builder_lines(builder).len() as int).len() == 0);
            }
            assert(wanted.take(wanted.len() as int) =~= wanted);
        }
    }
    match build_matcher(&builder) {
        Some(matcher) => IgnoreRules { root: worktree.dup(), matcher },
        None => IgnoreRules { root: worktree.dup(), matcher: empty_matcher() },
    }
}

/// Whether a path below a worktree lies in its Git directory.
pub open spec fn is_git_path(rel: Seq<u8>) -> bool {
    let rel = crate::bytes::shown(rel);
    ".git/"@.is_prefix_of(rel) || rel == ".git"@
}

/// Whether a path below a worktree lies where Git keeps what does not show in its state.
pub open spec fn is_git_noise(rel: Seq<u8>) -> bool {
    let rel = crate::bytes::shown(rel);
    ".git/objects/"@.is_prefix_of(rel) || ".git/logs/"@.is_prefix_of(rel)
}

/// Whether an event at a path does not matter to a worktree. What lies outside of the worktree is
/// the state of Git and matters. So does what lies in its Git directory, but for objects and logs.
/// Of the other files those matter that are tracked or not ignored.
pub open spec fn event_ignored(
    event_path: Seq<u8>,
    worktree: PathView,
    rules: Map<PathView, IgnoreRulesView>,
    known: Map<PathView, Set<PathView>>,
) -> bool {
    let path = crate::paths::path_of(event_path);
    let rel = crate::paths::rest_spelling(event_path, worktree);
    if !path.starts_with(worktree) {
        false
    } else if is_git_path(rel) {
        is_git_noise(rel)
    } else if known.contains_key(worktree) && known[worktree].contains(path) {
        false
    } else {
        rules.contains_key(worktree) && ignored_by(rules[worktree], event_path)
    }
}

/// Whether the rules of a worktree can be held against an event at a path, if they decide on it.
pub open spec fn event_judged(
    event_path: Seq<u8>,
    worktree: PathView,
    rules: Map<PathView, IgnoreRulesView>,
    known: Map<PathView, Set<PathView>>,
) -> bool {
    let path = crate::paths::path_of(event_path);
    let rel = crate::paths::rest_spelling(event_path, worktree);
    ||| !path.starts_with(worktree)
    ||| is_git_path(rel)
    ||| known.contains_key(worktree) && known[worktree].contains(path)
    ||| rules.contains_key(worktree) ==> judges(rules[worktree], event_path)
}

/// Whether an event at a path does not matter to a worktree.
pub fn is_event_ignored(
    event_path: &FilePath,
    worktree: &FilePath,
    gitignores: &Table<FilePath, IgnoreRules>,
    ignored_tracked_paths: &Table<FilePath, KeySet<FilePath>>,
) -> (ignored: bool)
    requires
        event_judged(
            event_path.spelled(),
            worktree.deep_view(),
            gitignores.deep_view(),
            ignored_tracked_paths.deep_view(),
        ),
    ensures
        ignored == event_ignored(
            event_path.spelled(),
            worktree.deep_view(),
            gitignores.deep_view(),
            ignored_tracked_paths.deep_view(),
        ),
{
    proof {
        crate::paths::spelling_spells_path(event_path);
    }
    let rel = match event_path.strip_prefix(worktree) {
        Some(rel) => rel,
        None => {
            return false;
        },
    };
    let rel_text = rel.text();
    let spelling = rel_text.as_str();
    if text::starts_with(spelling, ".git/") || text::same_text(spelling, ".git") {
        return text::starts_with(spelling, ".git/objects/") || text::starts_with(
            spelling,
            ".git/logs/",
        );
    }
    if let Some(paths) = ignored_tracked_paths.get(worktree) {
        if paths.contains(event_path) {
            return false;
        }
    }
    match gitignores.get(worktree) {
        Some(rules) => rules.ignores(event_path),
        None => false,
    }
}

/// Whether an event at a path does not matter to a worktree, if the rules of the worktree can be
/// held against the path where they decide on it.
pub fn try_event_ignored(
    event_path: &FilePath,
    worktree: &FilePath,
    gitignores: &Table<FilePath, IgnoreRules>,
    ignored_tracked_paths: &Table<FilePath, KeySet<FilePath>>,
) -> (ignored: Option<bool>)
    ensures
        ignored == (if event_judged(
            event_path.spelled(),
            worktree.deep_view(),
            gitignores.deep_view(),
            ignored_tracked_paths.deep_view(),
        ) {
            Some(
                event_ignored(
                    event_path.spelled(),
                    worktree.deep_view(),
                    gitignores.deep_view(),
                    ignored_tracked_paths.deep_view(),
                ),
            )
        } else {
            None
        }),
{
    proof {
        crate::paths::spelling_spells_path(event_path);
    }
    let decides = match event_path.strip_prefix(worktree) {
        Some(rel) => {
            let rel_text = rel.text();
            let spelling = rel_text.as_str();
            let tracked_file = match ignored_tracked_paths.get(worktree) {
                Some(paths) => paths.contains(event_path),
                None => false,
            };
            !text::starts_with(spelling, ".git/") && !text::same_text(spelling, ".git")
                && !tracked_file
        },
        None => false,
    };
    if decides {
        if let Some(rules) = gitignores.get(worktree) {
            if !rules.can_judge(event_path) {
                return None;
            }
        }
    }
    Some(is_event_ignored(event_path, worktree, gitignores, ignored_tracked_paths))
}

/// What is ignored in each worktree.
pub struct RuleBook {
    gitignores: Table<FilePath, IgnoreRules>,
    ignored_tracked_paths: Table<FilePath, KeySet<FilePath>>,
}

/// What is ignored in each worktree.
#[verifier::ext_equal]
pub struct RuleBookView {
    pub rules: Map<PathView, IgnoreRulesView>,
    /// The tracked files that the rules would ignore.
    pub known: Map<PathView, Set<PathView>>,
}

impl DeepView for RuleBook {
    type V = RuleBookView;

    closed spec fn deep_view(&self) -> RuleBookView {
        RuleBookView {
            rules: self.gitignores.deep_view(),
            known: self.ignored_tracked_paths.deep_view(),
        }
    }
}

impl RuleBookView {
    /// Without rules.
    pub open spec fn nothing() -> RuleBookView {
        RuleBookView { rules: Map::empty(), known: Map::empty() }
    }

    /// With the rules of a worktree as it is spelled, by its ignore file and by what Git lists.
    pub open spec fn with(
        self,
        root: Seq<u8>,
        content: Option<Seq<u8>>,
        listing: Option<Seq<u8>>,
    ) -> RuleBookView {
        let worktree = crate::paths::path_of(root);
        RuleBookView {
            rules: self.rules.insert(worktree, rules_of(root, content)),
            known: self.known.insert(
                worktree,
                match listing {
                    Some(bytes) => super::git_dirs::listed_paths(
                        worktree,
                        crate::bytes::zero_pieces(bytes),
                    ),
                    None => Set::empty(),
                },
            ),
        }
    }

    /// Without the rules of a worktree.
    pub open spec fn without(self, worktree: PathView) -> RuleBookView {
        RuleBookView { rules: self.rules.remove(worktree), known: self.known.remove(worktree) }
    }

    /// Whether an event at a path does not matter to a worktree.
    pub open spec fn ignores(self, event_path: Seq<u8>, worktree: PathView) -> bool {
        event_ignored(event_path, worktree, self.rules, self.known)
    }

    /// Whether the rules can be held against an event at a path, if they decide on it.
    pub open spec fn can_judge(self, event_path: Seq<u8>, worktree: PathView) -> bool {
        event_judged(event_path, worktree, self.rules, self.known)
    }
}

impl RuleBook {
    /// A book without rules.
    pub fn new() -> (book: Self)
        ensures
            book.deep_view() == RuleBookView::nothing(),
    {
        RuleBook { gitignores: Table::new(), ignored_tracked_paths: Table::new() }
    }

    /// Whether an event at a path does not matter to a worktree, if the rules can be held against
    /// the path where they decide on it.
    pub fn ignores(&self, event_path: &FilePath, worktree: &FilePath) -> (ignored: Option<bool>)
        ensures
            ignored == (if self.deep_view().can_judge(event_path.spelled(), worktree.deep_view()) {
                Some(self.deep_view().ignores(event_path.spelled(), worktree.deep_view()))
            } else {
                None
            }),
    {
        try_event_ignored(event_path, worktree, &self.gitignores, &self.ignored_tracked_paths)
    }

    /// Takes the rules of a worktree from its ignore file and from what Git lists.
    pub fn set(
        &mut self,
        worktree: &FilePath,
        content: Option<&Vec<u8>>,
        listing: Option<&Vec<u8>>,
    )
        ensures
            final(self).deep_view() == old(self).deep_view().with(
                worktree.spelled(),
                match content {
                    Some(bytes) => Some(bytes@),
                    None => None,
                },
                match listing {
                    Some(bytes) => Some(bytes@),
                    None => None,
                },
            ),
    {
        proof {
            crate::paths::spelling_spells_path(worktree);
        }
        self.gitignores.insert(worktree.dup(), build_gitignore(worktree, content));
        self.ignored_tracked_paths.insert(
            worktree.dup(),
            load_ignored_tracked_paths(worktree, listing),
        );
    }

    /// Forgets the rules of a worktree.
    pub fn forget(&mut self, worktree: &FilePath)
        ensures
            final(self).deep_view() == old(self).deep_view().without(worktree.deep_view()),
    {
        let _ = self.gitignores.remove(worktree);
        let _ = self.ignored_tracked_paths.remove(worktree);
    }
}

/// Whether a path lies where Git keeps what does not show in the state of any worktree.
pub open spec fn is_noise(path: Seq<u8>) -> bool {
    let path = crate::bytes::shown(path);
    crate::text::has_text(path, "/.git/objects/"@) || crate::text::has_text(path, "/.git/logs/"@)
}

/// Whether an event has no path but such paths, so that it need not be handed on.
pub fn dominated_by_noise(paths: &Vec<FilePath>) -> (noise: bool)
    ensures
        noise == forall|i: int|
            0 <= i < paths@.len() ==> is_noise((#[trigger] paths@[i]).spelled()),
{
    for i in 0..paths.len()
        invariant
            forall|j: int| 0 <= j < i ==> is_noise((#[trigger] paths@[j]).spelled()),
    {
        let spelling = paths[i].text();
        if !(text::contains(spelling.as_str(), "/.git/objects/") || text::contains(
            spelling.as_str(),
            "/.git/logs/",
        )) {
            assert(!is_noise(paths@[i as int].spelled()));
            return false;
        }
    }
    true
}

/// A tracked file matters whatever the rules say, unless it lies in the Git directory.
pub proof fn tracked_files_matter(
    event_path: Seq<u8>,
    worktree: PathView,
    rules: Map<PathView, IgnoreRulesView>,
    known: Map<PathView, Set<PathView>>,
)
    requires
        known.contains_key(worktree),
        known[worktree].contains(crate::paths::path_of(event_path)),
        !is_git_noise(crate::paths::rest_spelling(event_path, worktree)),
    ensures
        !event_ignored(event_path, worktree, rules, known),
{
}

/// What lies outside of a worktree matters to it.
pub proof fn outside_events_matter(
    event_path: Seq<u8>,
    worktree: PathView,
    rules: Map<PathView, IgnoreRulesView>,
    known: Map<PathView, Set<PathView>>,
)
    requires
        !crate::paths::path_of(event_path).starts_with(worktree),
    ensures
        !event_ignored(event_path, worktree, rules, known),
{
}

/// What lies in the Git directory of a worktree matters to it, but for objects and logs.
pub proof fn git_states_matter(
    event_path: Seq<u8>,
    worktree: PathView,
    rules: Map<PathView, IgnoreRulesView>,
    known: Map<PathView, Set<PathView>>,
)
    requires
        is_git_path(crate::paths::rest_spelling(event_path, worktree)),
        !is_git_noise(crate::paths::rest_spelling(event_path, worktree)),
    ensures
        !event_ignored(event_path, worktree, rules, known),
{
}

/// Below a worktree, what lies in its Git directory matters whatever the rules say: its index, its head,
/// its refs and all else but the objects and the logs, which never matter.
pub proof fn git_directory_matters(
    event_path: Seq<u8>,
    worktree: PathView,
    rules: Map<PathView, IgnoreRulesView>,
    known: Map<PathView, Set<PathView>>,
)
    requires
        crate::paths::path_of(event_path).starts_with(worktree),
    ensures
        ({
            let rel = crate::bytes::shown(crate::paths::rest_spelling(event_path, worktree));
            let ignored = event_ignored(event_path, worktree, rules, known);
            &&& ".git/objects/"@.is_prefix_of(rel) || ".git/logs/"@.is_prefix_of(rel) ==> ignored
            &&& (".git/"@.is_prefix_of(rel) || rel == ".git"@) && !".git/objects/"@.is_prefix_of(
                rel,
            ) && !".git/logs/"@.is_prefix_of(rel) ==> !ignored
        }),
{
    let rel = crate::bytes::shown(crate::paths::rest_spelling(event_path, worktree));
    reveal_strlit(".git/");
    reveal_strlit(".git/objects/");
    reveal_strlit(".git/logs/");
    let dir = ".git/"@;
    if ".git/objects/"@.is_prefix_of(rel) {
        let whole = ".git/objects/"@;
        assert(rel.subrange(0, 13) == whole);
        assert forall|i: int| 0 <= i < 5 implies rel.subrange(0, 5)[i] == dir[i] by {
            assert(rel.subrange(0, 13)[i] == whole[i]);
        }
        assert(rel.subrange(0, 5) =~= dir);
    }
    if ".git/logs/"@.is_prefix_of(rel) {
        let whole = ".git/logs/"@;
        assert(rel.subrange(0, 10) == whole);
        assert forall|i: int| 0 <= i < 5 implies rel.subrange(0, 5)[i] == dir[i] by {
            assert(rel.subrange(0, 10)[i] == whole[i]);
        }
        assert(rel.subrange(0, 5) =~= dir);
    }
}

/// Of the files in a worktree, those outside of its Git directory, a tracked one matters; another one
/// matters unless there is a rule for the worktree and the rules ignore it.
pub proof fn files_matter_unless_ignored(
    event_path: Seq<u8>,
    worktree: PathView,
    rules: Map<PathView, IgnoreRulesView>,
    known: Map<PathView, Set<PathView>>,
)
    requires
        crate::paths::path_of(event_path).starts_with(worktree),
        ({
            let rel = crate::bytes::shown(crate::paths::rest_spelling(event_path, worktree));
            !".git/"@.is_prefix_of(rel) && rel != ".git"@
        }),
    ensures
        ({
            let ignored = event_ignored(event_path, worktree, rules, known);
            let followed = known.contains_key(worktree) && known[worktree].contains(
                crate::paths::path_of(event_path),
            );
            &&& followed ==> !ignored
            &&& !rules.contains_key(worktree) ==> !ignored
            &&& !followed && rules.contains_key(worktree) ==> ignored == (some_rule(
                rules[worktree].lines,
            ) && rules_ignore(
                crate::bytes::shown(rules[worktree].root),
                rules[worktree].lines,
                crate::bytes::shown(event_path),
            ))
        }),
{
}

/// A path is noise if its text has the directory of Git's objects or of its logs in it, and else not.
pub proof fn noise_is_objects_and_logs(path: Seq<u8>)
    ensures
        is_noise(path) <==> exists|at: int|
            0 <= at <= crate::bytes::shown(path).len() && (
            "/.git/objects/"@.is_prefix_of(#[trigger] crate::bytes::shown(path).skip(at))
                || "/.git/logs/"@.is_prefix_of(crate::bytes::shown(path).skip(at))),
{
    let text = crate::bytes::shown(path);
    lemma_text_found(text, "/.git/objects/"@);
    lemma_text_found(text, "/.git/logs/"@);
    if crate::text::has_text(text, "/.git/objects/"@) {
        let at = choose|at: int|
            0 <= at <= text.len() && "/.git/objects/"@.is_prefix_of(#[trigger] text.skip(at));
        assert("/.git/objects/"@.is_prefix_of(text.skip(at)));
    }
    if crate::text::has_text(text, "/.git/logs/"@) {
        let at = choose|at: int|
            0 <= at <= text.len() && "/.git/logs/"@.is_prefix_of(#[trigger] text.skip(at));
        assert("/.git/logs/"@.is_prefix_of(text.skip(at)));
    }
}

proof fn lemma_text_found(text: Seq<char>, part: Seq<char>)
    ensures
        crate::text::has_text(text, part) <==> exists|at: int|
            0 <= at <= text.len() && part.is_prefix_of(#[trigger] text.skip(at)),
{
    if crate::text::has_text(text, part) {
        let at = choose|at: int| crate::text::stands_at(text, part, at);
        assert(text.skip(at).subrange(0, part.len() as int) =~= text.subrange(
            at,
            at + part.len(),
        ));
        assert(part.is_prefix_of(text.skip(at)));
    }
    if exists|at: int| 0 <= at <= text.len() && part.is_prefix_of(#[trigger] text.skip(at)) {
        let at = choose|at: int|
            0 <= at <= text.len() && part.is_prefix_of(#[trigger] text.skip(at));
        assert(text.skip(at).subrange(0, part.len() as int) =~= text.subrange(
            at,
            at + part.len(),
        ));
        assert(crate::text::stands_at(text, part, at));
    }
}

/// An ignore file is read line by line: each line, without its line break or its carriage return and
/// line break, is one; the last line needs no break; and where a line is not UTF-8 the rest is left.
pub proof fn files_are_read_by_lines(line: Seq<u8>, rest: Seq<u8>, text: Seq<char>)
    requires
        line.len() > 0,
        !line.drop_last().contains(10),
        line.last() == 10 || rest.len() == 0,
    ensures
        vstd::utf8::valid_utf8(line) && vstd::utf8::decode_utf8(line) == text.push('\r').push('\n')
            ==> file_lines(line + rest) == seq![text] + file_lines(rest),
        vstd::utf8::valid_utf8(line) && vstd::utf8::decode_utf8(line) == text.push('\n') && !(
        text.len() > 0 && text.last() == '\r') ==> file_lines(line + rest) == seq![text]
            + file_lines(rest),
        vstd::utf8::valid_utf8(line) && vstd::utf8::decode_utf8(line) == text && !(text.len() > 0
            && text.last() == '\n') ==> file_lines(line + rest) == seq![text] + file_lines(rest),
        !vstd::utf8::valid_utf8(line) ==> file_lines(line + rest) == Seq::<Seq<char>>::empty(),
        file_lines(Seq::empty()) == Seq::<Seq<char>>::empty(),
{
    let bytes = line + rest;
    let n = line.len() - 1;
    assert forall|j: int| 0 <= j < n implies bytes[j] != 10 by {
        assert(line.drop_last()[j] == bytes[j]);
        assert(line.drop_last().contains(line.drop_last()[j]));
    }
    assert(bytes[n] == line.last());
    crate::bytes::lemma_line_size(bytes, n);
    if line.last() != 10 {
        crate::bytes::lemma_line_size(bytes, n + 1);
    }
    assert(bytes.take(n + 1) =~= line);
    assert(bytes.skip(n + 1) =~= rest);
    assert(text.push('\r').push('\n').drop_last() =~= text.push('\r'));
    assert(text.push('\r').drop_last() =~= text);
    assert(text.push('\n').drop_last() =~= text);
}

/// The rules of a worktree are the lines of its ignore file, the first one without byte order marks; a
/// worktree without such a file has none, and neither has one whose rules are too much for a matcher.
pub proof fn rules_are_the_lines_of_the_file(root: Seq<u8>, bytes: Seq<u8>)
    ensures
        rules_of(root, None).lines == Seq::<Seq<char>>::empty(),
        rules_of(root, Some(bytes)).root == root,
        rules_build(rule_lines(bytes)) ==> ({
            let lines = rules_of(root, Some(bytes)).lines;
            &&& lines.len() == file_lines(bytes).len()
            &&& forall|i: int| 1 <= i < lines.len() ==> lines[i] == file_lines(bytes)[i]
            &&& lines.len() > 0 && !(file_lines(bytes)[0].len() > 0 && file_lines(bytes)[0][0]
                == '\u{feff}') ==> lines[0] == file_lines(bytes)[0]
        }),
        !rules_build(rule_lines(bytes)) ==> rules_of(root, Some(bytes)).lines.len() == 0,
{
}

/// The rules of a worktree are those that were taken last, and none once they are forgotten; the rules of other
/// worktrees stay as they are.
pub proof fn rules_are_kept_apart(
    book: RuleBookView,
    root: Seq<u8>,
    content: Option<Seq<u8>>,
    listing: Option<Seq<u8>>,
    other: PathView,
)
    ensures
        ({
            let worktree = crate::paths::path_of(root);
            let after = book.with(root, content, listing);
            let gone = book.without(worktree);
            &&& after.rules.contains_pair(worktree, rules_of(root, content))
            &&& after.known.contains_key(worktree)
            &&& listing is None ==> after.known[worktree] == Set::<PathView>::empty()
            &&& listing matches Some(bytes) ==> after.known[worktree]
                == super::git_dirs::listed_paths(worktree, crate::bytes::zero_pieces(bytes))
            &&& !gone.rules.contains_key(worktree) && !gone.known.contains_key(worktree)
            &&& other != worktree ==> {
                &&& after.rules.contains_key(other) == book.rules.contains_key(other)
                &&& book.rules.contains_key(other) ==> after.rules[other] == book.rules[other]
                    && gone.rules.contains_pair(other, book.rules[other])
                &&& after.known.contains_key(other) == book.known.contains_key(other)
                &&& book.known.contains_key(other) ==> after.known[other] == book.known[other]
                    && gone.known.contains_pair(other, book.known[other])
            }
        }),
{
}

/// The rules of a worktree at an absolute path can be held against every path below it, as they can where there is no
/// rule at all.
pub proof fn paths_below_are_judged(root: Seq<u8>, lines: Seq<Seq<char>>, path: Seq<u8>, rel: Seq<char>)
    requires
        ({
            let text = crate::bytes::shown(root);
            &&& text.len() > 1
            &&& text[0] == '/'
            &&& crate::paths::path_of(crate::bytes::utf8(text)).absolute
            &&& crate::bytes::shown(path) == text.push('/') + rel
            &&& rel.len() > 0 ==> rel[0] != '/'
        }),
    ensures
        judges(IgnoreRulesView { root, lines }, path),
{
    let text = crate::bytes::shown(root);
    let whole = text.push('/') + rel;
    let here = crate::bytes::utf8("."@);
    reveal_strlit(".");
    reveal_strlit("./");
    reveal_strlit("/");
    assert(!"."@.contains('/'));
    crate::bytes::utf8_keeps_slashes("."@);
    assert(!crate::paths::path_of(here).absolute) by {
        if here.len() > 0 {
            assert(here.contains(here[0]));
        }
    }
    assert(!"./"@.is_prefix_of(text)) by {
        if "./"@.is_prefix_of(text) {
            assert(text.subrange(0, 2)[0] == "./"@[0]);
        }
    }
    assert(!"./"@.is_prefix_of(whole)) by {
        if "./"@.is_prefix_of(whole) {
            assert(whole.subrange(0, 2)[0] == "./"@[0]);
        }
    }
    assert(whole[0] == '/');
    assert(whole.contains('/'));
    assert(whole.subrange(0, text.len() as int) =~= text);
    let back = whole.skip(text.len() as int);
    assert(back =~= "/"@ + rel);
    assert(back.subrange(0, 1) =~= "/"@);
    assert(back.skip(1) =~= rel);
}

/// An event need not be held against any rules where it lies outside of the worktree or in its Git directory, where
/// it is on a tracked file, or where the worktree has no rules.
pub proof fn other_events_are_judged(
    event_path: Seq<u8>,
    worktree: PathView,
    rules: Map<PathView, IgnoreRulesView>,
    known: Map<PathView, Set<PathView>>,
)
    ensures
        ({
            let rel = crate::bytes::shown(crate::paths::rest_spelling(event_path, worktree));
            let path = crate::paths::path_of(event_path);
            let judged = event_judged(event_path, worktree, rules, known);
            &&& !path.starts_with(worktree) ==> judged
            &&& ".git/"@.is_prefix_of(rel) || rel == ".git"@ ==> judged
            &&& known.contains_key(worktree) && known[worktree].contains(path) ==> judged
            &&& !rules.contains_key(worktree) ==> judged
            &&& rules.contains_key(worktree) && judges(rules[worktree], event_path) ==> judged
        }),
{
}

} // verus!
