//! Shared steps for files that extend an agent.
use vstd::prelude::*;

use super::{SetupError, StatusCheck};
use crate::paths::{FilePath, PathView};
use crate::text;
use crate::values::Value;

verus! {

/// What was found at a path.
pub enum FileProbe {
    /// Nothing is there.
    Missing,
    /// Something is there that cannot be read.
    Unreadable,
    /// A file with this text.
    Text(String),
}

/// The status of an extension whose file holds a text.
pub open spec fn source_status(installed: Seq<char>, source: Seq<char>) -> StatusCheck {
    if installed == source {
        StatusCheck::Installed
    } else {
        StatusCheck::NotInstalled
    }
}

/// Whether an extension file holds the bundled source. Without a path nothing was probed.
pub fn check_installed(probe: Option<&FileProbe>, source: &str) -> (status: Result<
    StatusCheck,
    SetupError,
>)
    ensures
        status == (match probe {
            Some(FileProbe::Unreadable) => Err(SetupError::ReadFailed),
            Some(FileProbe::Text(installed)) => Ok(source_status(installed@, source@)),
            Some(FileProbe::Missing) => Ok(StatusCheck::NotInstalled),
            None => Ok(StatusCheck::NotInstalled),
        }),
{
    match probe {
        Some(FileProbe::Unreadable) => Err(SetupError::ReadFailed),
        Some(FileProbe::Text(installed)) => if text::same_text(installed.as_str(), source) {
            Ok(StatusCheck::Installed)
        } else {
            Ok(StatusCheck::NotInstalled)
        },
        _ => Ok(StatusCheck::NotInstalled),
    }
}

/// One change to the file system, with what to say if it fails.
pub enum FileStep {
    /// Create a directory and those above it.
    CreateDirs { dir: FilePath, context: String },
    /// Write a whole file.
    Write { path: FilePath, content: String, context: String },
}

/// What a step stands for, with paths as they are spelled.
pub enum FileStepView {
    CreateDirs { dir: Seq<u8>, context: Seq<char> },
    Write { path: Seq<u8>, content: Seq<char>, context: Seq<char> },
}

impl DeepView for FileStep {
    type V = FileStepView;

    open spec fn deep_view(&self) -> FileStepView {
        match self {
            FileStep::CreateDirs { dir, context } => FileStepView::CreateDirs {
                dir: dir.spelled(),
                context: context@,
            },
            FileStep::Write { path, content, context } => FileStepView::Write {
                path: path.spelled(),
                content: content@,
                context: context@,
            },
        }
    }
}

/// The steps that put an extension file in place: the directory first, then the file.
pub open spec fn install_steps(
    path: Seq<u8>,
    source: Seq<char>,
    mkdir_context: Seq<char>,
    write_context: Seq<char>,
) -> Seq<FileStepView> {
    let write = FileStepView::Write { path, content: source, context: write_context };
    if crate::paths::path_of(path).parent() is Some {
        let dir = crate::paths::parent_spelling(path);
        seq![FileStepView::CreateDirs { dir, context: mkdir_context }, write]
    } else {
        seq![write]
    }
}

/// Plans the parent directories and the file of an extension.
pub fn install_extension_file(
    path: &FilePath,
    source: &str,
    mkdir_context: &str,
    write_context: &str,
) -> (steps: Vec<FileStep>)
    ensures
        steps.deep_view() == install_steps(
            path.spelled(),
            source@,
            mkdir_context@,
            write_context@,
        ),
{
    let mut steps: Vec<FileStep> = Vec::new();
    if let Some(dir) = path.parent() {
        steps.push(FileStep::CreateDirs { dir, context: mkdir_context.to_owned() });
    }
    steps.push(
        FileStep::Write {
            path: path.dup(),
            content: source.to_owned(),
            context: write_context.to_owned(),
        },
    );
    proof {
        crate::paths::spelling_spells_path(path);
    }
    assert(steps.deep_view() =~= install_steps(
        path.spelled(),
        source@,
        mkdir_context@,
        write_context@,
    ));
    steps
}

/// The texts of files behind some steps.
pub open spec fn files_after(
    files: Map<PathView, Seq<char>>,
    steps: Seq<FileStepView>,
) -> Map<PathView, Seq<char>>
    decreases steps.len(),
{
    if steps.len() == 0 {
        files
    } else {
        let before = files_after(files, steps.drop_last());
        match steps.last() {
            FileStepView::CreateDirs { .. } => before,
            FileStepView::Write { path, content, .. } => before.insert(
                crate::paths::path_of(path),
                content,
            ),
        }
    }
}

/// Installing writes the file that checking looks at and no other, and to install again changes
/// nothing.
pub proof fn installing_is_idempotent(
    files: Map<PathView, Seq<char>>,
    path: Seq<u8>,
    source: Seq<char>,
    mkdir_context: Seq<char>,
    write_context: Seq<char>,
)
    ensures
        ({
            let steps = install_steps(path, source, mkdir_context, write_context);
            let once = files_after(files, steps);
            let at = crate::paths::path_of(path);
            &&& once == files.insert(at, source)
            &&& source_status(once[at], source) == StatusCheck::Installed
            &&& files_after(once, steps) == once
        }),
{
    let steps = install_steps(path, source, mkdir_context, write_context);
    let once = files_after(files, steps);
    reveal_with_fuel(files_after, 3);
    let rest = steps.drop_last();
    if rest.len() > 0 {
        assert(rest.drop_last() =~= Seq::<FileStepView>::empty());
    } else {
        assert(rest =~= Seq::<FileStepView>::empty());
    }
    assert(once =~= files.insert(crate::paths::path_of(path), source));
    assert(files_after(once, steps) =~= once);
}

/// How far the removal of an extension file has come, and what is asked next.
#[derive(Debug, Clone, Copy, PartialEq, Eq, Structural)]
pub enum RemoveStage {
    /// Is the file there?
    CheckExists,
    /// Remove the file: did that work?
    RemoveFile,
    /// Is there a parent directory that can be listed and is empty?
    CheckParentEmpty,
    /// Remove the parent directory; whether that works does not matter.
    RemoveParent,
    /// There was no file.
    Absent,
    /// The file was removed.
    Removed,
    /// The file could not be removed.
    Failed,
}

/// The stage behind an answer.
pub open spec fn remove_next(stage: RemoveStage, yes: bool) -> RemoveStage {
    match stage {
        RemoveStage::CheckExists => if yes {
            RemoveStage::RemoveFile
        } else {
            RemoveStage::Absent
        },
        RemoveStage::RemoveFile => if yes {
            RemoveStage::CheckParentEmpty
        } else {
            RemoveStage::Failed
        },
        RemoveStage::CheckParentEmpty => if yes {
            RemoveStage::RemoveParent
        } else {
            RemoveStage::Removed
        },
        RemoveStage::RemoveParent => RemoveStage::Removed,
        _ => stage,
    }
}

/// Removes an extension file and the parent directory it leaves empty, one step at a time.
pub fn remove_extension_file(stage: RemoveStage, yes: bool) -> (next: RemoveStage)
    ensures
        next == remove_next(stage, yes),
{
    match stage {
        RemoveStage::CheckExists => if yes {
            RemoveStage::RemoveFile
        } else {
            RemoveStage::Absent
        },
        RemoveStage::RemoveFile => if yes {
            RemoveStage::CheckParentEmpty
        } else {
            RemoveStage::Failed
        },
        RemoveStage::CheckParentEmpty => if yes {
            RemoveStage::RemoveParent
        } else {
            RemoveStage::Removed
        },
        RemoveStage::RemoveParent => RemoveStage::Removed,
        _ => stage,
    }
}

/// The stage behind a run of answers.
pub open spec fn remove_run(answers: Seq<bool>) -> RemoveStage
    decreases answers.len(),
{
    if answers.len() == 0 {
        RemoveStage::CheckExists
    } else {
        remove_next(remove_run(answers.drop_last()), answers.last())
    }
}

/// A parent directory is removed only behind its file, and only when it was found empty.
pub proof fn parent_removed_only_when_empty(answers: Seq<bool>)
    ensures
        remove_run(answers) == RemoveStage::RemoveParent <==> answers == seq![true, true, true],
{
    reveal_with_fuel(remove_run, 5);
    let n = answers.len();
    if n == 3 {
        assert(answers.drop_last().drop_last().drop_last() =~= Seq::<bool>::empty());
        assert(answers =~= seq![answers[0], answers[1], answers[2]]);
    } else if n > 3 {
        lemma_remove_settles(answers);
    } else {
        assert(answers.len() != seq![true, true, true].len());
    }
}

proof fn lemma_remove_settles(answers: Seq<bool>)
    requires
        answers.len() > 3,
    ensures
        remove_run(answers) is Absent || remove_run(answers) is Removed || remove_run(
            answers,
        ) is Failed,
    decreases answers.len(),
{
    if answers.len() == 4 {
        reveal_with_fuel(remove_run, 6);
        let rest = answers.drop_last().drop_last().drop_last().drop_last();
        assert(rest =~= Seq::<bool>::empty());
    } else {
        lemma_remove_settles(answers.drop_last());
    }
}

/// A removal is over after four answers.
pub proof fn removal_ends(answers: Seq<bool>)
    requires
        answers.len() >= 4,
    ensures
        remove_run(answers) is Absent || remove_run(answers) is Removed || remove_run(
            answers,
        ) is Failed,
{
    lemma_remove_settles(answers);
}

/// An extension counts as installed if and only if its file holds the bundled source, character for character.
pub proof fn only_the_bundled_source_is_installed(installed: Seq<char>, source: Seq<char>)
    ensures
        source_status(installed, source) == StatusCheck::Installed <==> installed.len()
            == source.len() && forall|i: int|
            0 <= i < source.len() ==> installed[i] == #[trigger] source[i],
        source_status(installed, source) == StatusCheck::Installed || source_status(
            installed,
            source,
        ) == StatusCheck::NotInstalled,
{
    if installed.len() == source.len() && forall|i: int|
        0 <= i < source.len() ==> installed[i] == #[trigger] source[i] {
        assert(installed =~= source);
    }
}

/// The file is written last, to its path and with the source; before that its directory is made, if it has one. What
/// is said of a failure goes with the step that failed.
pub proof fn directories_are_made_before_files(
    path: Seq<u8>,
    source: Seq<char>,
    mkdir_context: Seq<char>,
    write_context: Seq<char>,
)
    ensures
        ({
            let steps = install_steps(path, source, mkdir_context, write_context);
            &&& steps.len() > 0
            &&& steps.last() matches FileStepView::Write { path: at, content, context }
            &&& at == path
            &&& content == source
            &&& context == write_context
        }),
        ({
            let steps = install_steps(path, source, mkdir_context, write_context);
            if crate::paths::path_of(path).parent() is Some {
                &&& steps.len() == 2
                &&& steps[0] matches FileStepView::CreateDirs { dir, context }
                &&& dir == crate::paths::parent_spelling(path)
                &&& context == mkdir_context
            } else {
                steps.len() == 1
            }
        }),
{
}

/// A removal ends as absent where no file was there, as failed where it could not be removed, and else as removed,
/// be its directory removed with it or not.
pub proof fn removals_end_as_they_went(answers: Seq<bool>)
    requires
        answers.len() >= 4,
    ensures
        remove_run(answers) is Absent <==> !answers[0],
        remove_run(answers) is Failed <==> answers[0] && !answers[1],
        remove_run(answers) is Removed <==> answers[0] && answers[1],
        answers[0] && answers[1] ==> remove_run(answers.take(2)) is CheckParentEmpty,
        answers[0] ==> remove_run(answers.take(1)) is RemoveFile,
        answers[0] && answers[1] && answers[2] ==> remove_run(answers.take(3)) is RemoveParent,
    decreases answers.len(),
{
    if answers.len() == 4 {
        assert(answers.take(0) =~= Seq::<bool>::empty());
        assert(answers.take(1).drop_last() =~= answers.take(0));
        assert(answers.take(2).drop_last() =~= answers.take(1));
        assert(answers.take(3).drop_last() =~= answers.take(2));
        assert(answers.drop_last() =~= answers.take(3));
        assert(answers.take(1).last() == answers[0]);
        assert(answers.take(2).last() == answers[1]);
        assert(answers.take(3).last() == answers[2]);
        assert(remove_run(answers.take(0)) is CheckExists);
        assert(remove_run(answers.take(1)) == remove_next(RemoveStage::CheckExists, answers[0]));
        assert(remove_run(answers.take(2)) == remove_next(
            remove_run(answers.take(1)),
            answers[1],
        ));
        assert(remove_run(answers.take(3)) == remove_next(
            remove_run(answers.take(2)),
            answers[2],
        ));
    } else {
        let shorter = answers.drop_last();
        removals_end_as_they_went(shorter);
        assert(shorter.take(1) =~= answers.take(1));
        assert(shorter.take(2) =~= answers.take(2));
        assert(shorter.take(3) =~= answers.take(3));
    }
}

} // verus!
