//! The notice about what the sandbox protects, shown once.
use vstd::prelude::*;

use crate::paths::FilePath;

verus! {

/// Which notice this is. A new one is shown again.
pub const NOTICE_VERSION: &'static str = "security-boundary-v1";

/// Where more is said.
pub const DOCS_URL: &'static str = "https://workmux.raine.dev/guide/sandbox/#security-model";

/// What the marker file holds.
pub const MARKER_TEXT: &'static str = "shown\n";

/// The directory of the notices below a state directory.
pub open spec fn notice_dir_of(state_dir: crate::paths::PathView) -> crate::paths::PathView {
    state_dir.join(crate::paths::path_of(crate::bytes::utf8("notices"@)))
}

/// The directory of the notices below a state directory.
pub fn notice_dir(state_dir: &FilePath) -> (dir: FilePath)
    ensures
        dir.deep_view() == notice_dir_of(state_dir.deep_view()),
        dir.spelled() == crate::paths::joined(state_dir.spelled(), crate::bytes::utf8("notices"@)),
{
    state_dir.child("notices")
}

/// The file that says that the notice was shown.
pub fn notice_marker(state_dir: &FilePath) -> (marker: FilePath)
    ensures
        marker.deep_view() == notice_dir_of(state_dir.deep_view()).join(
            crate::paths::path_of(crate::bytes::utf8(NOTICE_VERSION@)),
        ),
        marker.spelled() == crate::paths::joined(
            crate::paths::joined(state_dir.spelled(), crate::bytes::utf8("notices"@)),
            crate::bytes::utf8(NOTICE_VERSION@),
        ),
{
    notice_dir(state_dir).child(NOTICE_VERSION)
}

/// What is to be done about the notice.
#[derive(Debug, Clone, Copy, PartialEq, Eq, Structural)]
pub enum NoticeStage {
    /// See whether the marker exists.
    LookForMarker,
    /// Create the directory of the notices.
    CreateDir,
    /// Write the notice.
    WriteNotice,
    /// Create the marker, which must not exist.
    CreateMarker,
    /// Write the text of the marker.
    WriteMarker,
    /// It is over, and the notice was shown or not.
    Done(bool),
    /// Something went wrong.
    Failed,
}

/// How it went.
#[derive(Debug, Clone, Copy, PartialEq, Eq, Structural)]
pub enum NoticeAnswer {
    /// It is there, or it was done.
    Yes,
    /// It is not there, or it could not be done.
    No,
    /// It could not be created because it exists.
    Exists,
}

/// What is to be done first.
pub open spec fn notice_begin(interactive: bool) -> NoticeStage {
    if interactive {
        NoticeStage::LookForMarker
    } else {
        NoticeStage::Done(false)
    }
}

/// What is to be done next.
pub open spec fn notice_next(stage: NoticeStage, answer: NoticeAnswer) -> NoticeStage {
    match stage {
        NoticeStage::LookForMarker => if answer == NoticeAnswer::Yes {
            NoticeStage::Done(false)
        } else {
            NoticeStage::CreateDir
        },
        NoticeStage::CreateDir => if answer == NoticeAnswer::Yes {
            NoticeStage::WriteNotice
        } else {
            NoticeStage::Failed
        },
        NoticeStage::WriteNotice => if answer == NoticeAnswer::Yes {
            NoticeStage::CreateMarker
        } else {
            NoticeStage::Failed
        },
        NoticeStage::CreateMarker => match answer {
            NoticeAnswer::Yes => NoticeStage::WriteMarker,
            NoticeAnswer::Exists => NoticeStage::Done(true),
            NoticeAnswer::No => NoticeStage::Failed,
        },
        NoticeStage::WriteMarker => if answer == NoticeAnswer::Yes {
            NoticeStage::Done(true)
        } else {
            NoticeStage::Failed
        },
        _ => stage,
    }
}

/// What is to be done first. Without a person at the terminal nothing is, and nothing is marked.
pub fn show_once_in(interactive: bool) -> (stage: NoticeStage)
    ensures
        stage == notice_begin(interactive),
{
    if interactive {
        NoticeStage::LookForMarker
    } else {
        NoticeStage::Done(false)
    }
}

/// What is to be done next.
pub fn show_once_next(stage: NoticeStage, answer: NoticeAnswer) -> (next: NoticeStage)
    ensures
        next == notice_next(stage, answer),
{
    let yes = answer == NoticeAnswer::Yes;
    match stage {
        NoticeStage::LookForMarker => if yes {
            NoticeStage::Done(false)
        } else {
            NoticeStage::CreateDir
        },
        NoticeStage::CreateDir => if yes {
            NoticeStage::WriteNotice
        } else {
            NoticeStage::Failed
        },
        NoticeStage::WriteNotice => if yes {
            NoticeStage::CreateMarker
        } else {
            NoticeStage::Failed
        },
        NoticeStage::CreateMarker => match answer {
            NoticeAnswer::Yes => NoticeStage::WriteMarker,
            NoticeAnswer::Exists => NoticeStage::Done(true),
            NoticeAnswer::No => NoticeStage::Failed,
        },
        NoticeStage::WriteMarker => if yes {
            NoticeStage::Done(true)
        } else {
            NoticeStage::Failed
        },
        _ => stage,
    }
}

/// The stage behind a run of answers.
pub open spec fn notice_run(interactive: bool, answers: Seq<NoticeAnswer>) -> NoticeStage
    decreases answers.len(),
{
    if answers.len() == 0 {
        notice_begin(interactive)
    } else {
        notice_next(notice_run(interactive, answers.drop_last()), answers.last())
    }
}

proof fn lemma_marker_first(interactive: bool, answers: Seq<NoticeAnswer>)
    requires
        answers.len() > 0,
        answers[0] == NoticeAnswer::Yes,
    ensures
        notice_run(interactive, answers) == NoticeStage::Done(false),
    decreases answers.len(),
{
    if answers.len() == 1 {
        assert(answers.drop_last() =~= Seq::<NoticeAnswer>::empty());
        assert(answers.last() == answers[0]);
        reveal_with_fuel(notice_run, 2);
    } else {
        lemma_marker_first(interactive, answers.drop_last());
    }
}

/// Where the marker exists, the notice is not shown.
pub proof fn marker_suppresses_notice(interactive: bool, answers: Seq<NoticeAnswer>)
    requires
        answers.len() > 0,
        answers[0] == NoticeAnswer::Yes,
    ensures
        notice_run(interactive, answers) == NoticeStage::Done(false),
{
    lemma_marker_first(interactive, answers);
}

/// Without a person at the terminal nothing is asked for.
pub proof fn noninteractive_asks_for_nothing(answers: Seq<NoticeAnswer>)
    ensures
        notice_run(false, answers) == NoticeStage::Done(false),
    decreases answers.len(),
{
    if answers.len() > 0 {
        noninteractive_asks_for_nothing(answers.drop_last());
    }
}

/// Where the notice was shown, its marker was made or was found made.
pub proof fn shown_leaves_marker(interactive: bool, answers: Seq<NoticeAnswer>)
    requires
        notice_run(interactive, answers) == NoticeStage::Done(true),
    ensures
        exists|n: int|
            0 <= n < answers.len() && notice_run(interactive, #[trigger] answers.take(n))
                == NoticeStage::CreateMarker && answers[n] != NoticeAnswer::No,
    decreases answers.len(),
{
    let before = answers.drop_last();
    let n = before.len() as int;
    assert(answers.take(n) =~= before);
    match notice_run(interactive, before) {
        NoticeStage::CreateMarker => {
            assert(answers[n] == answers.last());
        },
        NoticeStage::WriteMarker => {
            let earlier = before.drop_last();
            let m = earlier.len() as int;
            assert(answers.take(m) =~= earlier);
            assert(answers[m] == before.last());
        },
        _ => {
            shown_leaves_marker(interactive, before);
            let m = choose|m: int|
                0 <= m < before.len() && notice_run(interactive, #[trigger] before.take(m))
                    == NoticeStage::CreateMarker && before[m] != NoticeAnswer::No;
            assert(answers.take(m) =~= before.take(m));
            assert(answers[m] == before[m]);
        },
    }
}

/// Whether the marker exists behind a run of answers, if it was there before or not.
pub open spec fn marked(interactive: bool, answers: Seq<NoticeAnswer>, before: bool) -> bool
    decreases answers.len(),
{
    if answers.len() == 0 {
        before
    } else {
        let earlier = answers.drop_last();
        marked(interactive, earlier, before) || (notice_run(interactive, earlier)
            == NoticeStage::CreateMarker && answers.last() != NoticeAnswer::No)
    }
}

/// Whether the answers say truly whether the marker exists when that is asked.
pub open spec fn truthful(interactive: bool, answers: Seq<NoticeAnswer>, before: bool) -> bool {
    forall|n: int|
        0 <= n < answers.len() && notice_run(interactive, #[trigger] answers.take(n))
            == NoticeStage::LookForMarker ==> (answers[n] == NoticeAnswer::Yes) == marked(
            interactive,
            answers.take(n),
            before,
        )
}

proof fn lemma_shown_is_marked(interactive: bool, answers: Seq<NoticeAnswer>, before: bool)
    requires
        notice_run(interactive, answers) == NoticeStage::Done(true) || notice_run(
            interactive,
            answers,
        ) == NoticeStage::WriteMarker,
    ensures
        marked(interactive, answers, before),
    decreases answers.len(),
{
    if answers.len() > 0 {
        let earlier = answers.drop_last();
        match notice_run(interactive, earlier) {
            NoticeStage::WriteMarker => lemma_shown_is_marked(interactive, earlier, before),
            NoticeStage::Done(_) => lemma_shown_is_marked(interactive, earlier, before),
            _ => {},
        }
    }
}

/// Of two runs the second writes no notice, where the first one showed it: its marker is found. So
/// it is whether or not the marker was there before the first.
pub proof fn notice_is_shown_once(
    first: Seq<NoticeAnswer>,
    second: Seq<NoticeAnswer>,
    interactive: bool,
    before: bool,
    n: int,
)
    requires
        notice_run(true, first) == NoticeStage::Done(true),
        truthful(interactive, second, marked(true, first, before)),
        0 < n <= second.len(),
    ensures
        notice_run(interactive, second.take(n)) == NoticeStage::Done(false),
{
    lemma_shown_is_marked(true, first, before);
    let answers = second.take(n);
    if interactive {
        let none = second.take(0);
        assert(none =~= Seq::<NoticeAnswer>::empty());
        assert(notice_run(true, none) == NoticeStage::LookForMarker);
        assert(answers[0] == second[0]);
        lemma_marker_first(true, answers);
    } else {
        noninteractive_asks_for_nothing(answers);
    }
}

/// The pieces of the notice that carry a style.
pub struct NoticePieces {
    pub border: String,
    pub corner_top: String,
    pub corner_bottom: String,
    pub title: String,
    pub link: String,
}

/// The pieces without any style.
pub fn plain_pieces() -> (pieces: NoticePieces)
    ensures
        pieces.border@ == "│"@,
        pieces.corner_top@ == "┌"@,
        pieces.corner_bottom@ == "└─"@,
        pieces.title@ == "Sandbox Security"@,
        pieces.link@ == DOCS_URL@,
{
    NoticePieces {
        border: "│".to_owned(),
        corner_top: "┌".to_owned(),
        corner_bottom: "└─".to_owned(),
        title: "Sandbox Security".to_owned(),
        link: DOCS_URL.to_owned(),
    }
}

/// A text between terminal codes, the last of which ends what the others begin.
pub open spec fn coded(codes: Seq<char>, text: Seq<char>) -> Seq<char> {
    codes + text + seq!['\u{1b}', '[', '0', 'm']
}

/// A text, dimmed or not.
pub open spec fn is_dimmed(shown: Seq<char>, text: Seq<char>) -> bool {
    shown == text || shown == coded(seq!['\u{1b}', '[', '2', 'm'], text)
}

/// A text, bold and cyan or not.
pub open spec fn is_titled(shown: Seq<char>, text: Seq<char>) -> bool {
    shown == text || shown == coded(
        seq!['\u{1b}', '[', '3', '6', 'm', '\u{1b}', '[', '1', 'm'],
        text,
    )
}

/// Dims a text by [`console::style`] and `StyledObject::dim`. Whether colours are on depends on the
/// terminal: the text comes out as it is, or between the codes for dimmed text.
#[verifier::external_body]
fn dim(text: &str) -> (shown: String)
    ensures
        is_dimmed(shown@, text@),
{
    console::style(text).dim().to_string()
}

/// Makes a text bold and cyan by [`console::style`], `StyledObject::bold` and
/// `StyledObject::cyan`. Whether colours are on depends on the terminal: the text comes out as it
/// is, or between the codes for bold and cyan.
#[verifier::external_body]
fn highlight(text: &str) -> (shown: String)
    ensures
        is_titled(shown@, text@),
{
    console::style(text).bold().cyan().to_string()
}

impl NoticePieces {
    /// Whether each piece has its style or none.
    pub open spec fn is_styled(self) -> bool {
        &&& is_dimmed(self.border@, "│"@)
        &&& is_dimmed(self.corner_top@, "┌"@)
        &&& is_dimmed(self.corner_bottom@, "└─"@)
        &&& is_titled(self.title@, "Sandbox Security"@)
        &&& is_dimmed(self.link@, DOCS_URL@)
    }
}

/// The pieces with their styles, as far as the terminal has colours.
pub fn styled_pieces() -> (pieces: NoticePieces)
    ensures
        pieces.is_styled(),
{
    let plain = plain_pieces();
    NoticePieces {
        border: dim(plain.border.as_str()),
        corner_top: dim(plain.corner_top.as_str()),
        corner_bottom: dim(plain.corner_bottom.as_str()),
        title: highlight(plain.title.as_str()),
        link: dim(plain.link.as_str()),
    }
}

/// The line with the title, up to the title.
pub open spec fn notice_head(pieces: NoticePieces) -> Seq<char> {
    "\n"@ + pieces.corner_top@ + " "@
}

/// What stands between the title and the first sentence.
pub open spec fn notice_gap(pieces: NoticePieces) -> Seq<char> {
    "\n"@ + pieces.border@ + "\n"@ + pieces.border@
}

/// What the notice says behind its first line.
pub open spec fn notice_body(pieces: NoticePieces) -> Seq<char> {
    let border = pieces.border@;
    border + "  The configured sandbox backend is the security boundary.\n"@ + border + "\n"@
        + border + "  Host-side commands from .workmux.yaml and repository code\n"@ + border
        + "  you later run on the host remain outside this boundary.\n"@ + border + "\n"@
}

/// The text of the notice.
pub open spec fn notice_text(pieces: NoticePieces) -> Seq<char> {
    notice_head(pieces) + pieces.title@ + notice_gap(pieces)
        + "  Sandboxed agent panes use noninteractive approval mode.\n"@ + notice_body(pieces)
        + pieces.corner_bottom@ + "  Learn more: "@ + pieces.link@ + ("\n"@ + "\n"@)
}

/// Writes the notice.
pub fn write_notice(pieces: &NoticePieces) -> (text: String)
    ensures
        text@ == notice_text(*pieces),
{
    let border = pieces.border.as_str();
    let mut text = "\n".to_owned();
    text.append(pieces.corner_top.as_str());
    text.append(" ");
    text.append(pieces.title.as_str());
    let mut gap = "\n".to_owned();
    gap.append(border);
    gap.append("\n");
    gap.append(border);
    text.append(gap.as_str());
    text.append("  Sandboxed agent panes use noninteractive approval mode.\n");
    let mut body = border.to_owned();
    body.append("  The configured sandbox backend is the security boundary.\n");
    body.append(border);
    body.append("\n");
    body.append(border);
    body.append("  Host-side commands from .workmux.yaml and repository code\n");
    body.append(border);
    body.append("  you later run on the host remain outside this boundary.\n");
    body.append(border);
    body.append("\n");
    text.append(body.as_str());
    text.append(pieces.corner_bottom.as_str());
    text.append("  Learn more: ");
    text.append(pieces.link.as_str());
    let mut end = "\n".to_owned();
    end.append("\n");
    text.append(end.as_str());
    text
}

/// Whether a text holds no capital S.
spec fn no_s(text: Seq<char>) -> bool {
    forall|i: int| 0 <= i < text.len() ==> #[trigger] text[i] != 'S'
}

proof fn lemma_dimmed_no_s(shown: Seq<char>, text: Seq<char>)
    requires
        is_dimmed(shown, text),
        no_s(text),
    ensures
        no_s(shown),
{
}

proof fn lemma_dimmed_stands(shown: Seq<char>, text: Seq<char>) -> (at: int)
    requires
        is_dimmed(shown, text) || is_titled(shown, text),
    ensures
        crate::text::stands_at(shown, text, at),
{
    let at: int = if shown == text {
        0
    } else {
        shown.len() - text.len() - 4
    };
    assert(shown.subrange(at, at + text.len()) =~= text);
    at
}

proof fn lemma_stands_between(
    left: Seq<char>,
    shown: Seq<char>,
    right: Seq<char>,
    text: Seq<char>,
    at: int,
)
    requires
        crate::text::stands_at(shown, text, at),
    ensures
        crate::text::stands_at(left + shown + right, text, left.len() + at),
{
    let whole = left + shown + right;
    assert(whole.subrange(left.len() + at, left.len() + at + text.len()) =~= shown.subrange(
        at,
        at + text.len(),
    ));
}

proof fn lemma_stands_inside(left: Seq<char>, shown: Seq<char>, right: Seq<char>, text: Seq<char>)
    requires
        is_dimmed(shown, text) || is_titled(shown, text),
    ensures
        crate::text::has_text(left + shown + right, text),
{
    let at = lemma_dimmed_stands(shown, text);
    lemma_stands_between(left, shown, right, text, at);
}

proof fn lemma_title_alone(head: Seq<char>, middle: Seq<char>, rest: Seq<char>, at: int)
    requires
        no_s(head),
        no_s(middle),
        no_s(rest),
        middle.len() > 0,
        crate::text::stands_at(
            head + "Sandbox Security"@ + middle
                + "  Sandboxed agent panes use noninteractive approval mode.\n"@ + rest,
            "Sandbox Security"@,
            at,
        ),
    ensures
        at == head.len(),
{
    let title = "Sandbox Security"@;
    let panes = "  Sandboxed agent panes use noninteractive approval mode.\n"@;
    let text = head + title + middle + panes + rest;
    reveal_strlit("Sandbox Security");
    reveal_strlit("  Sandboxed agent panes use noninteractive approval mode.\n");
    let found = text.subrange(at, at + title.len());
    assert(found[0] == 'S' && found[7] == ' ' && found[8] == 'S');
    assert(text[at] == 'S' && text[at + 7] == ' ' && text[at + 8] == 'S');
    let a = head.len() as int;
    let b = a + title.len();
    let c = b + middle.len();
    let d = c + panes.len();
    if at < a {
        assert(text[at] == head[at]);
    } else if at < b {
        assert(text[at] == title[at - a]);
        if at != a {
            assert(at - a == 8);
            assert(text[at + 8] == middle[0]);
        }
    } else if at < c {
        assert(text[at] == middle[at - b]);
    } else if at < d {
        assert(text[at] == panes[at - c]);
        assert(at - c == 2);
        assert(text[at + 7] == panes[9]);
    } else {
        assert(text[at] == rest[at - d]);
    }
}

proof fn lemma_words_no_s()
    ensures
        no_s("\n"@),
        no_s(" "@),
        no_s("│"@),
        no_s("┌"@),
        no_s("└─"@),
        no_s("  Learn more: "@),
        no_s("  The configured sandbox backend is the security boundary.\n"@),
        no_s("  Host-side commands from .workmux.yaml and repository code\n"@),
        no_s("  you later run on the host remain outside this boundary.\n"@),
        no_s(DOCS_URL@),
{
    reveal_strlit("\n");
    reveal_strlit(" ");
    reveal_strlit("│");
    reveal_strlit("┌");
    reveal_strlit("└─");
    reveal_strlit("  Learn more: ");
    reveal_strlit("  The configured sandbox backend is the security boundary.\n");
    reveal_strlit("  Host-side commands from .workmux.yaml and repository code\n");
    reveal_strlit("  you later run on the host remain outside this boundary.\n");
    reveal_strlit("https://workmux.raine.dev/guide/sandbox/#security-model");
}

proof fn lemma_pieces_no_s(pieces: NoticePieces)
    requires
        pieces.is_styled(),
    ensures
        no_s(notice_head(pieces)),
        no_s(notice_gap(pieces)),
        notice_gap(pieces).len() > 0,
        no_s(notice_body(pieces)),
        no_s(pieces.corner_bottom@),
        no_s(pieces.link@),
{
    lemma_words_no_s();
    lemma_dimmed_no_s(pieces.border@, "│"@);
    lemma_dimmed_no_s(pieces.corner_top@, "┌"@);
    lemma_dimmed_no_s(pieces.corner_bottom@, "└─"@);
    lemma_dimmed_no_s(pieces.link@, DOCS_URL@);
    reveal_strlit("\n");
}

proof fn lemma_notice_holds(
    head: Seq<char>,
    title: Seq<char>,
    middle: Seq<char>,
    corner: Seq<char>,
    learn: Seq<char>,
    link: Seq<char>,
    end: Seq<char>,
)
    requires
        is_titled(title, "Sandbox Security"@),
        is_dimmed(corner, "└─"@),
        is_dimmed(link, DOCS_URL@),
    ensures
        crate::text::has_text(
            head + title + middle + corner + learn + link + end,
            "Sandbox Security"@,
        ),
        crate::text::has_text(head + title + middle + corner + learn + link + end, "└─"@),
        crate::text::has_text(head + title + middle + corner + learn + link + end, DOCS_URL@),
{
    let text = head + title + middle + corner + learn + link + end;
    let behind = middle + corner + learn + link + end;
    assert(text =~= head + title + behind);
    lemma_stands_inside(head, title, behind, "Sandbox Security"@);
    let before = head + title + middle;
    let rest = learn + link + end;
    assert(text =~= before + corner + rest);
    lemma_stands_inside(before, corner, rest, "└─"@);
    lemma_stands_inside(before + corner + learn, link, end, DOCS_URL@);
}

proof fn lemma_title_once(
    head: Seq<char>,
    shown: Seq<char>,
    gap: Seq<char>,
    rest: Seq<char>,
    at: int,
    other: int,
)
    requires
        is_titled(shown, "Sandbox Security"@),
        no_s(head),
        no_s(gap),
        gap.len() > 0,
        no_s(rest),
        ({
            let text = head + shown + gap
                + "  Sandboxed agent panes use noninteractive approval mode.\n"@ + rest;
            &&& crate::text::stands_at(text, "Sandbox Security"@, at)
            &&& crate::text::stands_at(text, "Sandbox Security"@, other)
        }),
    ensures
        at == other,
{
    let title = "Sandbox Security"@;
    let panes = "  Sandboxed agent panes use noninteractive approval mode.\n"@;
    let text = head + shown + gap + panes + rest;
    if shown == title {
        lemma_title_alone(head, gap, rest, at);
        lemma_title_alone(head, gap, rest, other);
    } else {
        let front = head + seq!['\u{1b}', '[', '3', '6', 'm', '\u{1b}', '[', '1', 'm'];
        let back = seq!['\u{1b}', '[', '0', 'm'] + gap;
        assert(head + shown + gap =~= front + title + back);
        lemma_title_alone(front, back, rest, at);
        lemma_title_alone(front, back, rest, other);
    }
}

proof fn lemma_regroup(
    front: Seq<char>,
    a: Seq<char>,
    b: Seq<char>,
    c: Seq<char>,
    d: Seq<char>,
    e: Seq<char>,
)
    ensures
        front + a + b + c + d + e == front + (a + b + c + d + e),
{
    assert(front + a + b + c + d + e =~= front + (a + b + c + d + e));
}

/// Whatever the terminal shows of styles, the notice holds its title once, its corners and the
/// address of the documentation.
pub proof fn notice_says_what_it_is(pieces: NoticePieces)
    requires
        pieces.is_styled(),
    ensures
        crate::text::has_text(notice_text(pieces), "Sandbox Security"@),
        forall|i: int, j: int|
            crate::text::stands_at(notice_text(pieces), "Sandbox Security"@, i)
                && crate::text::stands_at(notice_text(pieces), "Sandbox Security"@, j) ==> i == j,
        crate::text::has_text(notice_text(pieces), "┌"@),
        crate::text::has_text(notice_text(pieces), "└─"@),
        crate::text::has_text(notice_text(pieces), DOCS_URL@),
{
    let text = notice_text(pieces);
    let head = notice_head(pieces);
    let shown = pieces.title@;
    let gap = notice_gap(pieces);
    let panes = "  Sandboxed agent panes use noninteractive approval mode.\n"@;
    let body = notice_body(pieces);
    let corner = pieces.corner_bottom@;
    let learn = "  Learn more: "@;
    let link = pieces.link@;
    let end = "\n"@ + "\n"@;
    let rest = body + corner + learn + link + end;
    lemma_regroup(head + shown + gap + panes, body, corner, learn, link, end);
    lemma_notice_holds(head, shown, gap + panes + body, corner, learn, link, end);
    assert(head + shown + gap + panes + body =~= head + shown + (gap + panes + body));
    lemma_top_corner(pieces.corner_top@, shown + gap + panes + rest);
    assert(head + shown + gap + panes + rest =~= head + (shown + gap + panes + rest));
    lemma_pieces_no_s(pieces);
    lemma_rest_no_s(body, corner, link);
    assert forall|i: int, j: int|
        crate::text::stands_at(text, "Sandbox Security"@, i) && crate::text::stands_at(
            text,
            "Sandbox Security"@,
            j,
        ) implies i == j by {
        lemma_title_once(head, shown, gap, rest, i, j);
    }
}

proof fn lemma_top_corner(corner: Seq<char>, behind: Seq<char>)
    requires
        is_dimmed(corner, "┌"@),
    ensures
        crate::text::has_text("\n"@ + corner + " "@ + behind, "┌"@),
{
    lemma_stands_inside("\n"@, corner, " "@ + behind, "┌"@);
    assert("\n"@ + corner + " "@ + behind =~= "\n"@ + corner + (" "@ + behind));
}

proof fn lemma_rest_no_s(body: Seq<char>, corner: Seq<char>, link: Seq<char>)
    requires
        no_s(body),
        no_s(corner),
        no_s(link),
    ensures
        no_s(body + corner + "  Learn more: "@ + link + ("\n"@ + "\n"@)),
{
    lemma_words_no_s();
}

/// Where a person is at the terminal and no marker is found, the notice is written and marked: first the directory
/// is made, then the notice is written, and then the marker is, which another one may have made meanwhile.
pub proof fn notice_is_shown_at_first(answers: Seq<NoticeAnswer>)
    requires
        answers.len() >= 4,
        answers[0] != NoticeAnswer::Yes,
        answers[1] == NoticeAnswer::Yes,
        answers[2] == NoticeAnswer::Yes,
    ensures
        notice_run(true, answers.take(0)) == NoticeStage::LookForMarker,
        notice_run(true, answers.take(1)) == NoticeStage::CreateDir,
        notice_run(true, answers.take(2)) == NoticeStage::WriteNotice,
        notice_run(true, answers.take(3)) == NoticeStage::CreateMarker,
        answers[3] == NoticeAnswer::Exists ==> notice_run(true, answers.take(4))
            == NoticeStage::Done(true),
        answers[3] == NoticeAnswer::Yes ==> notice_run(true, answers.take(4))
            == NoticeStage::WriteMarker,
        answers[3] == NoticeAnswer::Yes && answers.len() >= 5 && answers[4] == NoticeAnswer::Yes
            ==> notice_run(true, answers.take(5)) == NoticeStage::Done(true),
{
    assert(answers.take(0) =~= Seq::<NoticeAnswer>::empty());
    lemma_run_next(answers, 0);
    lemma_run_next(answers, 1);
    lemma_run_next(answers, 2);
    lemma_run_next(answers, 3);
    if answers.len() >= 5 {
        lemma_run_next(answers, 4);
    }
}

proof fn lemma_run_next(answers: Seq<NoticeAnswer>, n: int)
    requires
        0 <= n < answers.len(),
    ensures
        notice_run(true, answers.take(n + 1)) == notice_next(
            notice_run(true, answers.take(n)),
            answers[n],
        ),
{
    assert(answers.take(n + 1).drop_last() =~= answers.take(n));
    assert(answers.take(n + 1).last() == answers[n]);
}

/// A notice that could not be written is not marked as shown, so that it is tried again another time.
pub proof fn unwritten_notices_are_not_marked(answers: Seq<NoticeAnswer>, n: int)
    requires
        0 <= n < answers.len(),
        notice_run(true, answers.take(n)) == NoticeStage::WriteNotice,
        answers[n] != NoticeAnswer::Yes,
    ensures
        notice_run(true, answers) == NoticeStage::Failed,
        !marked(true, answers, false),
    decreases answers.len(),
{
    if answers.len() == n + 1 {
        assert(answers.drop_last() =~= answers.take(n));
        lemma_not_marked_before(answers.take(n));
    } else {
        assert(answers.drop_last().take(n) =~= answers.take(n));
        unwritten_notices_are_not_marked(answers.drop_last(), n);
    }
}

proof fn lemma_not_marked_before(answers: Seq<NoticeAnswer>)
    requires
        notice_run(true, answers) == NoticeStage::LookForMarker || notice_run(true, answers)
            == NoticeStage::CreateDir || notice_run(true, answers) == NoticeStage::WriteNotice,
    ensures
        !marked(true, answers, false),
    decreases answers.len(),
{
    if answers.len() > 0 {
        lemma_not_marked_before(answers.drop_last());
    }
}

/// The notice says in what mode agents run, what the boundary is and what stays outside of it.
pub proof fn notice_names_the_boundary(pieces: NoticePieces)
    ensures
        crate::text::has_text(
            notice_text(pieces),
            "  Sandboxed agent panes use noninteractive approval mode.\n"@,
        ),
        crate::text::has_text(
            notice_text(pieces),
            "  The configured sandbox backend is the security boundary.\n"@,
        ),
        crate::text::has_text(
            notice_text(pieces),
            "  Host-side commands from .workmux.yaml and repository code\n"@,
        ),
        crate::text::has_text(
            notice_text(pieces),
            "  you later run on the host remain outside this boundary.\n"@,
        ),
{
    let text = notice_text(pieces);
    let border = pieces.border@;
    let mode = "  Sandboxed agent panes use noninteractive approval mode.\n"@;
    let one = "  The configured sandbox backend is the security boundary.\n"@;
    let two = "  Host-side commands from .workmux.yaml and repository code\n"@;
    let three = "  you later run on the host remain outside this boundary.\n"@;
    let front = notice_head(pieces) + pieces.title@ + notice_gap(pieces);
    let end = pieces.corner_bottom@ + "  Learn more: "@ + pieces.link@ + ("\n"@ + "\n"@);
    let body = notice_body(pieces);
    assert(text =~= front + mode + (body + end));
    lemma_stands_inside(front, mode, body + end, mode);
    let before = front + mode + border;
    let after = border + "\n"@ + border + two + border + three + border + "\n"@ + end;
    assert(text =~= before + one + after);
    lemma_stands_inside(before, one, after, one);
    let before = before + one + border + "\n"@ + border;
    let after = border + three + border + "\n"@ + end;
    assert(text =~= before + two + after);
    lemma_stands_inside(before, two, after, two);
    let before = before + two + border;
    let after = border + "\n"@ + end;
    assert(text =~= before + three + after);
    lemma_stands_inside(before, three, after, three);
}

/// Notices and their markers lie in a directory of their own below the state directory, and the marker is named after
/// the notice, so that another notice is shown again.
pub proof fn markers_have_their_place(state_dir: crate::paths::PathView)
    requires
        !state_dir.is_empty(),
    ensures
        ({
            let dir = notice_dir_of(state_dir);
            let marker = dir.join(crate::paths::path_of(crate::bytes::utf8(NOTICE_VERSION@)));
            &&& dir.parent() == Some(state_dir)
            &&& dir.file_name() == Some(crate::bytes::utf8("notices"@))
            &&& marker.parent() == Some(dir)
            &&& marker.file_name() == Some(crate::bytes::utf8("security-boundary-v1"@))
        }),
{
    let dir = notice_dir_of(state_dir);
    lemma_named_child(state_dir, "notices"@);
    lemma_named_child(dir, "security-boundary-v1"@);
}

proof fn lemma_named_child(dir: crate::paths::PathView, name: Seq<char>)
    requires
        !dir.is_empty(),
        name == "notices"@ || name == "security-boundary-v1"@,
    ensures
        ({
            let child = dir.join(crate::paths::path_of(crate::bytes::utf8(name)));
            &&& child.parent() == Some(dir)
            &&& child.file_name() == Some(crate::bytes::utf8(name))
            &&& !child.is_empty()
        }),
{
    reveal_strlit("notices");
    reveal_strlit("security-boundary-v1");
    assert(!name.contains('/')) by {
        assert forall|i: int| 0 <= i < name.len() implies name[i] != '/' by {}
    }
    crate::bytes::utf8_keeps_slashes(name);
    let bytes = crate::bytes::utf8(name);
    crate::paths::lemma_path_of_name(bytes);
    assert(bytes.len() != seq![crate::paths::DOT].len());
    assert(bytes.len() != seq![crate::paths::DOT, crate::paths::DOT].len());
    let child = dir.join(crate::paths::path_of(bytes));
    assert(child.parts =~= dir.parts.push(bytes));
    assert(child.parts.drop_last() =~= dir.parts);
}

} // verus!
