//! File paths by their components.
//!
//! Two spellings of a path that name the same components are the same path: repeated and trailing
//! slashes and inner `.` components do not count. A path keeps the spelling that it was given. It is
//! spelled in bytes, which need not be text.
use vstd::prelude::*;

use crate::bytes::{copy_bytes, lossy_text, same_bytes};
use crate::values::Value;

verus! {

/// What stands between components.
pub const SLASH: u8 = 47;

/// A dot.
pub const DOT: u8 = 46;

/// What a path stands for.
#[verifier::ext_equal]
pub struct PathView {
    /// Whether it starts at the root.
    pub absolute: bool,
    /// The components behind the root.
    pub parts: Seq<Seq<u8>>,
}

/// The pieces between the slashes of a text.
pub open spec fn pieces(text: Seq<u8>) -> Seq<Seq<u8>>
    decreases text.len(),
{
    if text.len() == 0 {
        seq![Seq::<u8>::empty()]
    } else {
        let before = pieces(text.drop_last());
        if text.last() == SLASH {
            before.push(Seq::empty())
        } else {
            before.drop_last().push(before.last().push(text.last()))
        }
    }
}

/// Whether a piece counts as a component: an empty one does not, and `.` only where it begins a
/// relative path.
pub open spec fn counts(piece: Seq<u8>, at: int, absolute: bool) -> bool {
    piece.len() > 0 && (piece == seq![DOT] ==> at == 0 && !absolute)
}

/// The pieces that count.
pub open spec fn counted(pieces: Seq<Seq<u8>>, absolute: bool) -> Seq<Seq<u8>>
    decreases pieces.len(),
{
    if pieces.len() == 0 {
        pieces
    } else {
        let before = counted(pieces.drop_last(), absolute);
        if counts(pieces.last(), pieces.len() - 1, absolute) {
            before.push(pieces.last())
        } else {
            before
        }
    }
}

/// The path that a text spells.
pub open spec fn path_of(text: Seq<u8>) -> PathView {
    let absolute = text.len() > 0 && text[0] == SLASH;
    PathView { absolute, parts: counted(pieces(text), absolute) }
}

/// The parts with slashes between them.
pub open spec fn slashed(parts: Seq<Seq<u8>>) -> Seq<u8>
    decreases parts.len(),
{
    if parts.len() == 0 {
        Seq::empty()
    } else if parts.len() == 1 {
        parts[0]
    } else {
        slashed(parts.drop_last()).push(SLASH) + parts.last()
    }
}

/// Whether a piece counts as a component anywhere but at the beginning.
pub open spec fn is_name(piece: Seq<u8>) -> bool {
    piece.len() > 0 && piece != seq![DOT]
}

/// The pieces up to the last one that counts.
pub open spec fn settled(pieces: Seq<Seq<u8>>, absolute: bool) -> Seq<Seq<u8>>
    decreases pieces.len(),
{
    if pieces.len() == 0 || counts(pieces.last(), pieces.len() - 1, absolute) {
        pieces
    } else {
        settled(pieces.drop_last(), absolute)
    }
}

/// The pieces from the first one that is a name.
pub open spec fn begun(pieces: Seq<Seq<u8>>) -> Seq<Seq<u8>>
    decreases pieces.len(),
{
    if pieces.len() == 0 || is_name(pieces[0]) {
        pieces
    } else {
        begun(pieces.skip(1))
    }
}

/// How many pieces there are up to the one that is the `count`-th component.
pub open spec fn reach(pieces: Seq<Seq<u8>>, absolute: bool, count: nat) -> nat
    decreases pieces.len(),
{
    if pieces.len() == 0 {
        0
    } else if counted(pieces.drop_last(), absolute).len() >= count {
        reach(pieces.drop_last(), absolute, count)
    } else {
        pieces.len()
    }
}

/// The spelling of pieces of a path, in which no piece at all is the root or nothing.
pub open spec fn respelled(pieces: Seq<Seq<u8>>, absolute: bool) -> Seq<u8> {
    if pieces.len() > 0 {
        slashed(pieces)
    } else if absolute {
        seq![SLASH]
    } else {
        Seq::empty()
    }
}

/// The spelling of one path behind another.
pub open spec fn joined(base: Seq<u8>, other: Seq<u8>) -> Seq<u8> {
    if other.len() > 0 && other[0] == SLASH {
        other
    } else if base.len() == 0 || base.last() == SLASH {
        base + other
    } else {
        base.push(SLASH) + other
    }
}

/// The spelling of a path without its last component.
pub open spec fn parent_spelling(text: Seq<u8>) -> Seq<u8> {
    let absolute = path_of(text).absolute;
    let all = settled(pieces(text), absolute);
    respelled(settled(all.drop_last(), absolute), absolute)
}

/// The spelling of what is left of a path behind the components of one that it begins with.
pub open spec fn rest_spelling(text: Seq<u8>, base: PathView) -> Seq<u8> {
    let path = path_of(text);
    if base.is_empty() {
        respelled(settled(pieces(text), path.absolute), path.absolute)
    } else {
        let from = reach(pieces(text), path.absolute, base.parts.len()) as int;
        slashed(settled(begun(pieces(text).skip(from)), true))
    }
}

impl PathView {
    /// Each component is a name, and `.` stands only where it begins a relative path.
    pub open spec fn well_formed(self) -> bool {
        forall|i: int|
            0 <= i < self.parts.len() ==> counts(#[trigger] self.parts[i], i, self.absolute)
                && !self.parts[i].contains(SLASH)
    }

    /// Whether this is the path that has no component at all.
    pub open spec fn is_empty(self) -> bool {
        !self.absolute && self.parts.len() == 0
    }

    /// `other` as seen from this path.
    pub open spec fn join(self, other: PathView) -> PathView {
        if other.absolute || self.is_empty() {
            other
        } else if other.parts.len() > 0 && other.parts[0] == seq![DOT] {
            PathView { absolute: self.absolute, parts: self.parts + other.parts.skip(1) }
        } else {
            PathView { absolute: self.absolute, parts: self.parts + other.parts }
        }
    }

    /// Whether this path begins with all the components of `base`.
    pub open spec fn starts_with(self, base: PathView) -> bool {
        base.is_empty() || (self.absolute == base.absolute && base.parts.is_prefix_of(self.parts))
    }

    /// What is left of this path behind the components of `base`.
    pub open spec fn strip_prefix(self, base: PathView) -> Option<PathView> {
        if base.is_empty() {
            Some(self)
        } else if self.starts_with(base) {
            Some(
                PathView {
                    absolute: false,
                    parts: self.parts.skip(base.parts.len() as int),
                },
            )
        } else {
            None
        }
    }

    /// The last component, if it is a name.
    pub open spec fn file_name(self) -> Option<Seq<u8>> {
        if self.parts.len() > 0 && self.parts.last() != seq![DOT] && self.parts.last() != seq![DOT, DOT] {
            Some(self.parts.last())
        } else {
            None
        }
    }

    /// The path without its last component.
    pub open spec fn parent(self) -> Option<PathView> {
        if self.parts.len() == 0 {
            None
        } else {
            Some(PathView { absolute: self.absolute, parts: self.parts.drop_last() })
        }
    }
}

proof fn lemma_pieces(text: Seq<u8>)
    ensures
        pieces(text).len() > 0,
        forall|i: int| 0 <= i < pieces(text).len() ==> !(#[trigger] pieces(text)[i]).contains(SLASH),
    decreases text.len(),
{
    if text.len() > 0 {
        lemma_pieces(text.drop_last());
        let before = pieces(text.drop_last());
        let after = pieces(text);
        assert forall|i: int| 0 <= i < after.len() implies !(#[trigger] after[i]).contains(SLASH) by {
            if i < before.len() - 1 {
                assert(after[i] == before[i]);
            } else if text.last() != SLASH {
                assert(after[i] == before.last().push(text.last()));
                assert(!before.last().contains(SLASH));
                if after[i].contains(SLASH) {
                    let j = choose|j: int| 0 <= j < after[i].len() && after[i][j] == SLASH;
                    assert(before.last()[j] == SLASH);
                }
            } else if i < before.len() {
                assert(after[i] == before[i]);
            }
        }
    }
}

proof fn lemma_counted(pieces: Seq<Seq<u8>>, absolute: bool)
    requires
        forall|i: int| 0 <= i < pieces.len() ==> !(#[trigger] pieces[i]).contains(SLASH),
    ensures
        (PathView { absolute, parts: counted(pieces, absolute) }).well_formed(),
        counted(pieces, absolute).len() <= pieces.len(),
    decreases pieces.len(),
{
    if pieces.len() > 0 {
        let shorter = pieces.drop_last();
        assert forall|i: int| 0 <= i < shorter.len() implies !(#[trigger] shorter[i]).contains(SLASH) by {
            assert(shorter[i] == pieces[i]);
        }
        lemma_counted(shorter, absolute);
        let before = PathView { absolute, parts: counted(shorter, absolute) };
        let after = PathView { absolute, parts: counted(pieces, absolute) };
        assert forall|i: int| 0 <= i < after.parts.len() implies counts(
            #[trigger] after.parts[i],
            i,
            absolute,
        ) && !after.parts[i].contains(SLASH) by {
            if i < before.parts.len() {
                assert(after.parts[i] == before.parts[i]);
            } else {
                assert(after.parts[i] == pieces.last());
            }
        }
    }
}

/// A path that a text spells has names for components.
pub proof fn lemma_path_of_well_formed(text: Seq<u8>)
    ensures
        path_of(text).well_formed(),
{
    lemma_pieces(text);
    lemma_counted(pieces(text), text.len() > 0 && text[0] == SLASH);
}

proof fn lemma_pieces_append(text: Seq<u8>, name: Seq<u8>)
    requires
        !name.contains(SLASH),
    ensures
        pieces(text.push(SLASH) + name) == pieces(text).push(name),
    decreases name.len(),
{
    let whole = text.push(SLASH) + name;
    if name.len() == 0 {
        assert(whole.drop_last() =~= text);
        assert(whole.last() == SLASH);
        assert(name =~= Seq::<u8>::empty());
    } else {
        let shorter = name.drop_last();
        assert(!shorter.contains(SLASH)) by {
            if shorter.contains(SLASH) {
                let j = choose|j: int| 0 <= j < shorter.len() && shorter[j] == SLASH;
                assert(name[j] == SLASH);
            }
        }
        lemma_pieces_append(text, shorter);
        assert(whole.drop_last() =~= text.push(SLASH) + shorter);
        assert(whole.last() == name.last());
        assert(name.contains(name.last()));
        let before = pieces(text).push(shorter);
        assert(before.drop_last() =~= pieces(text));
        assert(shorter.push(name.last()) =~= name);
    }
}

proof fn lemma_pieces_name(name: Seq<u8>)
    requires
        !name.contains(SLASH),
    ensures
        pieces(name) == seq![name],
    decreases name.len(),
{
    if name.len() == 0 {
        assert(name =~= Seq::<u8>::empty());
    } else {
        let shorter = name.drop_last();
        assert(!shorter.contains(SLASH)) by {
            if shorter.contains(SLASH) {
                let j = choose|j: int| 0 <= j < shorter.len() && shorter[j] == SLASH;
                assert(name[j] == SLASH);
            }
        }
        lemma_pieces_name(shorter);
        assert(name.contains(name.last()));
        assert(shorter.push(name.last()) =~= name);
        assert(pieces(name) =~= seq![name]);
    }
}

proof fn lemma_pieces_slashed(parts: Seq<Seq<u8>>)
    requires
        parts.len() > 0,
        forall|i: int| 0 <= i < parts.len() ==> !(#[trigger] parts[i]).contains(SLASH),
    ensures
        pieces(slashed(parts)) == parts,
    decreases parts.len(),
{
    if parts.len() == 1 {
        lemma_pieces_name(parts[0]);
        assert(parts =~= seq![parts[0]]);
    } else {
        let before = parts.drop_last();
        assert forall|i: int| 0 <= i < before.len() implies !(#[trigger] before[i]).contains(SLASH) by {
            assert(before[i] == parts[i]);
        }
        lemma_pieces_slashed(before);
        lemma_pieces_append(slashed(before), parts.last());
        assert(before.push(parts.last()) =~= parts);
    }
}

proof fn lemma_counted_all(parts: Seq<Seq<u8>>, absolute: bool)
    requires
        forall|i: int| 0 <= i < parts.len() ==> counts(#[trigger] parts[i], i, absolute),
    ensures
        counted(parts, absolute) == parts,
    decreases parts.len(),
{
    if parts.len() > 0 {
        let before = parts.drop_last();
        assert forall|i: int| 0 <= i < before.len() implies counts(
            #[trigger] before[i],
            i,
            absolute,
        ) by {
            assert(before[i] == parts[i]);
        }
        lemma_counted_all(before, absolute);
        assert(counts(parts[parts.len() - 1], parts.len() - 1, absolute));
        assert(before.push(parts.last()) =~= parts);
    }
}

/// A text without slashes that is not `.` spells itself.
pub proof fn lemma_path_of_name(name: Seq<u8>)
    requires
        name.len() > 0,
        !name.contains(SLASH),
    ensures
        path_of(name) == (PathView { absolute: false, parts: seq![name] }),
{
    lemma_pieces_name(name);
    assert(name.contains(name[0]));
    lemma_counted_all(seq![name], false);
}

proof fn lemma_pieces_join(text: Seq<u8>, rest: Seq<u8>)
    ensures
        pieces(text.push(SLASH) + rest) == pieces(text) + pieces(rest),
    decreases rest.len(),
{
    let whole = text.push(SLASH) + rest;
    if rest.len() == 0 {
        assert(whole =~= text.push(SLASH));
        assert(whole.drop_last() =~= text);
        assert(pieces(whole) =~= pieces(text) + pieces(rest));
    } else {
        lemma_pieces_join(text, rest.drop_last());
        lemma_pieces(rest.drop_last());
        assert(whole.drop_last() =~= text.push(SLASH) + rest.drop_last());
        assert(whole.last() == rest.last());
        let before = pieces(text) + pieces(rest.drop_last());
        assert(before.drop_last() =~= pieces(text) + pieces(rest.drop_last()).drop_last());
        assert(before.last() == pieces(rest.drop_last()).last());
        assert(pieces(whole) =~= pieces(text) + pieces(rest));
    }
}

proof fn lemma_first_piece(text: Seq<u8>)
    ensures
        pieces(text).len() > 0,
        pieces(text)[0].len() == 0 <==> text.len() == 0 || text[0] == SLASH,
        text.len() > 0 && text[0] == SLASH ==> pieces(text).len() > 1,
    decreases text.len(),
{
    if text.len() > 0 {
        lemma_first_piece(text.drop_last());
        let before = pieces(text.drop_last());
        if text.len() > 1 {
            assert(text.drop_last()[0] == text[0]);
        }
        if before.len() > 1 {
            assert(pieces(text)[0] == before[0]);
        }
    }
}

proof fn lemma_counted_one(piece: Seq<u8>, absolute: bool)
    ensures
        counted(seq![piece], absolute) == (if counts(piece, 0, absolute) {
            seq![piece]
        } else {
            Seq::empty()
        }),
{
    reveal_with_fuel(counted, 2);
    assert(seq![piece].drop_last() =~= Seq::<Seq<u8>>::empty());
    assert(counted(seq![piece], absolute) =~= if counts(piece, 0, absolute) {
        seq![piece]
    } else {
        Seq::empty()
    });
}

proof fn lemma_counted_concat(front: Seq<Seq<u8>>, back: Seq<Seq<u8>>, absolute: bool)
    requires
        front.len() > 0 || absolute,
    ensures
        counted(front + back, absolute) == counted(front, absolute) + counted(back, true),
    decreases back.len(),
{
    let whole = front + back;
    if back.len() == 0 {
        assert(whole =~= front);
        assert(back =~= Seq::<Seq<u8>>::empty());
        assert(counted(whole, absolute) =~= counted(front, absolute) + counted(back, true));
    } else {
        lemma_counted_concat(front, back.drop_last(), absolute);
        assert(whole.drop_last() =~= front + back.drop_last());
        assert(whole.last() == back.last());
        assert(counted(whole, absolute) =~= counted(front, absolute) + counted(back, true));
    }
}

proof fn lemma_counted_relative(all: Seq<Seq<u8>>)
    requires
        all.len() > 0,
    ensures
        counted(all, false) == (if all[0] == seq![DOT] {
            seq![all[0]] + counted(all, true)
        } else {
            counted(all, true)
        }),
        all[0].len() > 0 ==> counted(all, false).len() > 0,
{
    let first = seq![all[0]];
    let rest = all.skip(1);
    assert(all =~= first + rest);
    lemma_counted_concat(first, rest, false);
    lemma_counted_concat(first, rest, true);
    lemma_counted_one(all[0], false);
    lemma_counted_one(all[0], true);
    assert(counted(all, false) =~= if all[0] == seq![DOT] {
        seq![all[0]] + counted(all, true)
    } else {
        counted(all, true)
    });
}

proof fn lemma_settled(all: Seq<Seq<u8>>, absolute: bool)
    ensures
        settled(all, absolute).is_prefix_of(all),
        counted(settled(all, absolute), absolute) == counted(all, absolute),
        settled(all, absolute).len() > 0 ==> counts(
            settled(all, absolute).last(),
            settled(all, absolute).len() - 1,
            absolute,
        ),
        settled(all, absolute).len() == 0 ==> counted(all, absolute).len() == 0,
    decreases all.len(),
{
    if all.len() == 0 || counts(all.last(), all.len() - 1, absolute) {
        assert(all =~= all.subrange(0, all.len() as int));
    } else {
        lemma_settled(all.drop_last(), absolute);
        let kept = settled(all, absolute);
        assert(kept =~= all.subrange(0, kept.len() as int));
    }
}

proof fn lemma_begun(all: Seq<Seq<u8>>)
    ensures
        counted(begun(all), true) == counted(all, true),
        begun(all).len() > 0 ==> is_name(begun(all)[0]),
        begun(all).is_suffix_of(all),
    decreases all.len(),
{
    if all.len() > 0 && !is_name(all[0]) {
        lemma_begun(all.skip(1));
        assert(all =~= seq![all[0]] + all.skip(1));
        lemma_counted_concat(seq![all[0]], all.skip(1), true);
        lemma_counted_one(all[0], true);
        assert(counted(begun(all), true) =~= counted(all, true));
        let kept = begun(all);
        assert(kept =~= all.subrange(all.len() - kept.len(), all.len() as int));
    } else {
        assert(all =~= all.subrange(0, all.len() as int));
    }
}

proof fn lemma_reach(all: Seq<Seq<u8>>, absolute: bool, count: nat)
    requires
        count <= counted(all, absolute).len(),
    ensures
        reach(all, absolute, count) <= all.len(),
        counted(all.take(reach(all, absolute, count) as int), absolute).len() == count,
        count > 0 ==> reach(all, absolute, count) > 0,
    decreases all.len(),
{
    if all.len() == 0 {
        assert(all.take(0) =~= all);
    } else if counted(all.drop_last(), absolute).len() >= count {
        lemma_reach(all.drop_last(), absolute, count);
        let n = reach(all, absolute, count) as int;
        assert(all.drop_last().take(n) =~= all.take(n));
    } else {
        assert(all.take(all.len() as int) =~= all);
    }
}

proof fn lemma_unslashed_part(all: Seq<Seq<u8>>, part: Seq<Seq<u8>>)
    requires
        forall|i: int| 0 <= i < all.len() ==> !(#[trigger] all[i]).contains(SLASH),
        part.is_prefix_of(all) || part.is_suffix_of(all),
    ensures
        forall|i: int| 0 <= i < part.len() ==> !(#[trigger] part[i]).contains(SLASH),
{
    assert forall|i: int| 0 <= i < part.len() implies !(#[trigger] part[i]).contains(SLASH) by {
        if part.is_prefix_of(all) {
            assert(part[i] == all[i]);
        } else {
            assert(part[i] == all[all.len() - part.len() + i]);
        }
    }
}

proof fn lemma_respelled(text: Seq<u8>, part: Seq<Seq<u8>>)
    requires
        part.is_prefix_of(pieces(text)),
        part.len() > 0 ==> counts(part.last(), part.len() - 1, path_of(text).absolute),
    ensures
        path_of(respelled(part, path_of(text).absolute)) == (PathView {
            absolute: path_of(text).absolute,
            parts: counted(part, path_of(text).absolute),
        }),
{
    let absolute = path_of(text).absolute;
    let short = respelled(part, absolute);
    lemma_first_piece(text);
    lemma_first_piece(short);
    if part.len() == 0 {
        assert(part =~= Seq::<Seq<u8>>::empty());
        lemma_counted_one(Seq::empty(), absolute);
        if absolute {
            let nothing = Seq::<u8>::empty();
            lemma_pieces_join(nothing, nothing);
            assert(short =~= nothing.push(SLASH) + nothing);
            lemma_counted_concat(pieces(nothing), pieces(nothing), true);
            assert(pieces(nothing) =~= seq![nothing]);
        } else {
            assert(pieces(short) =~= seq![Seq::<u8>::empty()]);
        }
        assert(path_of(short).parts =~= counted(part, absolute));
    } else {
        lemma_pieces(text);
        lemma_unslashed_part(pieces(text), part);
        lemma_pieces_slashed(part);
        assert(part[0] == pieces(text)[0]);
        if absolute {
            assert(part[0].len() == 0);
            assert(part.len() > 1);
            assert(short.len() > 0);
        } else {
            if part[0].len() == 0 {
                assert(text.len() == 0);
                assert(pieces(text).len() == 1);
                assert(part.len() == 1);
            }
        }
        assert(path_of(short).absolute == absolute);
    }
}

/// A spelling that is not empty names something.
proof fn lemma_not_empty(text: Seq<u8>)
    requires
        text.len() > 0,
    ensures
        !path_of(text).is_empty(),
{
    if text[0] != SLASH {
        lemma_first_piece(text);
        lemma_counted_relative(pieces(text));
    }
}

/// Spellings are joined as their paths are.
pub proof fn joined_spells_join(base: Seq<u8>, other: Seq<u8>)
    ensures
        path_of(joined(base, other)) == path_of(base).join(path_of(other)),
{
    let text = joined(base, other);
    if other.len() > 0 && other[0] == SLASH {
    } else if base.len() == 0 {
        assert(text =~= other);
        lemma_counted_one(Seq::empty(), false);
        assert(pieces(base) =~= seq![Seq::<u8>::empty()]);
        assert(path_of(base).is_empty());
    } else {
        lemma_not_empty(base);
        lemma_pieces(base);
        lemma_pieces(other);
        let absolute = path_of(base).absolute;
        let front = if base.last() == SLASH {
            base.drop_last()
        } else {
            base
        };
        lemma_pieces_join(front, other);
        assert(front.push(SLASH) + other =~= text);
        assert(text[0] == base[0]);
        lemma_pieces(front);
        lemma_counted_concat(pieces(front), pieces(other), absolute);
        if base.last() == SLASH {
            let nothing = Seq::<u8>::empty();
            lemma_pieces_join(front, nothing);
            assert(front.push(SLASH) + nothing =~= base);
            lemma_counted_concat(pieces(front), pieces(nothing), absolute);
            lemma_counted_one(nothing, true);
            assert(pieces(nothing) =~= seq![nothing]);
            assert(counted(pieces(base), absolute) =~= counted(pieces(front), absolute));
        }
        let named = counted(pieces(other), true);
        lemma_counted_relative(pieces(other));
        lemma_counted(pieces(other), true);
        if named.len() > 0 {
            let view = PathView { absolute: true, parts: named };
            assert(counts(view.parts[0], 0, true));
        }
        let theirs = path_of(other).parts;
        if pieces(other)[0] == seq![DOT] {
            assert(theirs.skip(1) =~= named);
        }
        assert(path_of(text).parts =~= path_of(base).join(path_of(other)).parts);
    }
}

/// The spelling of a parent spells the parent.
pub proof fn parent_spelling_spells_parent(text: Seq<u8>)
    requires
        path_of(text).parts.len() > 0,
    ensures
        path_of(text).parent() == Some(path_of(parent_spelling(text))),
{
    let absolute = path_of(text).absolute;
    let all = settled(pieces(text), absolute);
    lemma_settled(pieces(text), absolute);
    let before = all.drop_last();
    lemma_settled(before, absolute);
    let kept = settled(before, absolute);
    assert(kept =~= pieces(text).subrange(0, kept.len() as int));
    lemma_respelled(text, kept);
    assert(counted(all, absolute).drop_last() =~= counted(before, absolute));
}

/// The spelling of what is left of a path spells what is left of it.
pub proof fn rest_spelling_spells_rest(text: Seq<u8>, base: PathView)
    requires
        path_of(text).starts_with(base),
    ensures
        path_of(text).strip_prefix(base) == Some(path_of(rest_spelling(text, base))),
{
    let path = path_of(text);
    let all = pieces(text);
    if base.is_empty() {
        lemma_settled(all, path.absolute);
        lemma_respelled(text, settled(all, path.absolute));
    } else {
        let count = base.parts.len();
        let n = reach(all, path.absolute, count) as int;
        lemma_reach(all, path.absolute, count);
        let front = all.take(n);
        let back = all.skip(n);
        assert(all =~= front + back);
        lemma_counted_concat(front, back, path.absolute);
        assert(counted(back, true) =~= path.parts.skip(count as int));
        lemma_begun(back);
        let named = begun(back);
        lemma_settled(named, true);
        let kept = settled(named, true);
        let short = slashed(kept);
        lemma_first_piece(short);
        if kept.len() == 0 {
            assert(short =~= Seq::<u8>::empty());
            lemma_counted_one(Seq::empty(), false);
            assert(pieces(short) =~= seq![Seq::<u8>::empty()]);
            assert(path_of(short).parts =~= path.parts.skip(count as int));
        } else {
            lemma_pieces(text);
            assert(back =~= all.subrange(all.len() - back.len(), all.len() as int));
            lemma_unslashed_part(all, back);
            lemma_unslashed_part(back, named);
            lemma_unslashed_part(named, kept);
            lemma_pieces_slashed(kept);
            assert(kept[0] == named[0]);
            lemma_counted_relative(kept);
        }
    }
}

/// What is joined to a path is left when that path is taken off again.
pub proof fn join_then_strip(base: PathView, relative: PathView)
    requires
        !base.is_empty(),
        !relative.absolute,
        relative.parts.len() > 0 ==> relative.parts[0] != seq![DOT],
    ensures
        base.join(relative).starts_with(base),
        base.join(relative).strip_prefix(base) == Some(relative),
{
    let joined = base.join(relative);
    assert(base.parts =~= joined.parts.subrange(0, base.parts.len() as int));
    assert(joined.parts.skip(base.parts.len() as int) =~= relative.parts);
}

/// What some pieces hold.
spec fn listed(all: Seq<Vec<u8>>) -> Seq<Seq<u8>> {
    all.map_values(|piece: Vec<u8>| piece@)
}

/// The pieces between the slashes of a text.
fn split_pieces(text: &[u8]) -> (found: Vec<Vec<u8>>)
    ensures
        listed(found@) == pieces(text@),
{
    let mut found: Vec<Vec<u8>> = Vec::new();
    let mut piece: Vec<u8> = Vec::new();
    assert(text@.take(0) =~= Seq::<u8>::empty());
    assert(listed(found@).push(piece@) =~= seq![Seq::<u8>::empty()]);
    for i in 0..text.len()
        invariant
            pieces(text@.take(i as int)) == listed(found@).push(piece@),
    {
        let c: u8 = text[i];
        let ghost done = listed(found@);
        proof {
            let longer = text@.take(i + 1);
            assert(longer.drop_last() =~= text@.take(i as int));
            assert(longer.last() == c);
            assert(done.push(piece@).drop_last() =~= done);
        }
        if c == SLASH {
            let ghost finished = piece@;
            found.push(piece);
            piece = Vec::new();
            assert(listed(found@) =~= done.push(finished));
        } else {
            piece.push(c);
        }
    }
    assert(text@.take(text@.len() as int) =~= text@);
    let ghost done = listed(found@);
    let ghost finished = piece@;
    found.push(piece);
    assert(listed(found@) =~= done.push(finished));
    found
}

/// Some pieces with slashes between them.
fn spell_pieces(all: &Vec<Vec<u8>>, from: usize, to: usize) -> (text: Vec<u8>)
    requires
        from <= to <= all@.len(),
    ensures
        text@ == slashed(listed(all@).subrange(from as int, to as int)),
{
    let mut text: Vec<u8> = Vec::new();
    let ghost parts = listed(all@);
    assert(text@ =~= slashed(parts.subrange(from as int, from as int)));
    for i in from..to
        invariant
            from <= i <= to <= all@.len(),
            parts == listed(all@),
            text@ == slashed(parts.subrange(from as int, i as int)),
    {
        let ghost before = text@;
        if i > from {
            text.push(SLASH);
        }
        let mut piece = copy_bytes(all[i].as_slice());
        text.append(&mut piece);
        proof {
            let longer = parts.subrange(from as int, i + 1);
            assert(longer.drop_last() =~= parts.subrange(from as int, i as int));
            assert(longer.last() == all@[i as int]@);
            if i == from {
                assert(before =~= Seq::<u8>::empty());
                assert(text@ =~= longer[0]);
            }
            assert(text@ =~= slashed(longer));
        }
    }
    text
}

fn keep(piece: &Vec<u8>, at: usize, absolute: bool) -> (yes: bool)
    ensures
        yes == counts(piece@, at as int, absolute),
{
    assert(piece@.len() == 1 && piece@[0] == DOT ==> piece@ =~= seq![DOT]);
    let is_dot = piece.len() == 1 && piece[0] == DOT;
    piece.len() > 0 && (!is_dot || (at == 0 && !absolute))
}

/// The number of pieces up to the last one that counts.
fn settled_len(all: &Vec<Vec<u8>>, absolute: bool, from: usize, to: usize) -> (end: usize)
    requires
        from <= to <= all@.len(),
    ensures
        from <= end <= to,
        settled(listed(all@).subrange(from as int, to as int), absolute)
            == listed(all@).subrange(from as int, end as int),
{
    let mut end: usize = to;
    let ghost parts = listed(all@);
    while end > from && !keep(&all[end - 1], end - 1 - from, absolute)
        invariant
            from <= end <= to <= all@.len(),
            parts == listed(all@),
            settled(parts.subrange(from as int, to as int), absolute) == settled(
                parts.subrange(from as int, end as int),
                absolute,
            ),
        decreases end,
    {
        proof {
            let now = parts.subrange(from as int, end as int);
            assert(now.last() == all@[end - 1]@);
            assert(now.drop_last() =~= parts.subrange(from as int, end - 1));
        }
        end = end - 1;
    }
    proof {
        let now = parts.subrange(from as int, end as int);
        if end > from {
            assert(now.last() == all@[end - 1]@);
        }
    }
    end
}

/// A file path.
pub struct FilePath {
    spelling: Vec<u8>,
    absolute: bool,
    parts: Vec<Vec<u8>>,
}

impl DeepView for FilePath {
    type V = PathView;

    closed spec fn deep_view(&self) -> PathView {
        path_of(self.spelling@)
    }
}

/// A path is what its spelling spells.
pub proof fn spelling_spells_path(path: &FilePath)
    ensures
        path_of(path.spelled()) == path.deep_view(),
{
}

impl FilePath {
    /// The spelling that the path was given.
    pub closed spec fn spelled(&self) -> Seq<u8> {
        self.spelling@
    }

    #[verifier::type_invariant]
    spec fn well_formed(&self) -> bool {
        &&& self.absolute == path_of(self.spelling@).absolute
        &&& listed(self.parts@) == path_of(self.spelling@).parts
    }

    /// The path that a text spells.
    pub fn parse(spelling: &str) -> (path: Self)
        ensures
            path.spelled() == crate::bytes::utf8(spelling@),
            path.deep_view() == path_of(crate::bytes::utf8(spelling@)),
            path.deep_view().well_formed(),
    {
        FilePath::from_bytes(copy_bytes(spelling.as_bytes()))
    }

    /// The path that bytes spell.
    pub fn from_bytes(spelling: Vec<u8>) -> (path: Self)
        ensures
            path.spelled() == spelling@,
            path.deep_view() == path_of(spelling@),
            path.deep_view().well_formed(),
    {
        let absolute = spelling.len() > 0 && spelling[0] == SLASH;
        let all = split_pieces(spelling.as_slice());
        let mut parts: Vec<Vec<u8>> = Vec::new();
        let ghost whole = listed(all@);
        assert(whole.take(0) =~= Seq::<Seq<u8>>::empty());
        assert(listed(parts@) =~= Seq::<Seq<u8>>::empty());
        for i in 0..all.len()
            invariant
                whole == listed(all@),
                listed(parts@) == counted(whole.take(i as int), absolute),
        {
            let ghost before = listed(parts@);
            proof {
                let longer = whole.take(i + 1);
                assert(longer.drop_last() =~= whole.take(i as int));
                assert(longer.last() == all@[i as int]@);
            }
            if keep(&all[i], i, absolute) {
                parts.push(copy_bytes(all[i].as_slice()));
                assert(listed(parts@) =~= before.push(whole[i as int]));
            }
        }
        proof {
            assert(whole.take(whole.len() as int) =~= whole);
            lemma_path_of_well_formed(spelling@);
        }
        FilePath { spelling, absolute, parts }
    }

    /// The path as text, with a replacement for what is not text.
    pub fn text(&self) -> (text: String)
        ensures
            text@ == crate::bytes::shown(self.spelled()),
    {
        lossy_text(self.spelling.as_slice())
    }

    /// The spelling that the path was given.
    pub fn spelling(&self) -> (bytes: &[u8])
        ensures
            bytes@ == self.spelled(),
    {
        self.spelling.as_slice()
    }

    /// The number of components behind the root.
    pub fn part_count(&self) -> (count: usize)
        ensures
            count == self.deep_view().parts.len(),
    {
        proof {
            use_type_invariant(self);
        }
        self.parts.len()
    }

    /// A component.
    pub fn part(&self, at: usize) -> (part: &[u8])
        requires
            at < self.deep_view().parts.len(),
        ensures
            part@ == self.deep_view().parts[at as int],
    {
        proof {
            use_type_invariant(self);
        }
        assert(listed(self.parts@)[at as int] == self.parts@[at as int]@);
        self.parts[at].as_slice()
    }

    /// Whether the path starts at the root.
    pub fn is_absolute(&self) -> (yes: bool)
        ensures
            yes == self.deep_view().absolute,
    {
        proof {
            use_type_invariant(self);
        }
        self.absolute
    }

    /// `other` as seen from this path.
    pub fn join(&self, other: &FilePath) -> (path: FilePath)
        ensures
            path.spelled() == joined(self.spelled(), other.spelled()),
            path.deep_view() == self.deep_view().join(other.deep_view()),
    {
        let relative = &other.spelling;
        proof {
            joined_spells_join(self.spelling@, relative@);
        }
        if relative.len() > 0 && relative[0] == SLASH {
            return FilePath::from_bytes(copy_bytes(relative.as_slice()));
        }
        let mut spelling = copy_bytes(self.spelling.as_slice());
        let count: usize = spelling.len();
        if count > 0 && spelling[count - 1] != SLASH {
            spelling.push(SLASH);
        }
        let mut rest = copy_bytes(relative.as_slice());
        spelling.append(&mut rest);
        assert(spelling@ =~= joined(self.spelling@, relative@));
        FilePath::from_bytes(spelling)
    }

    /// The path of a text as seen from this one.
    pub fn child(&self, relative: &str) -> (path: FilePath)
        ensures
            path.spelled() == joined(self.spelled(), crate::bytes::utf8(relative@)),
            path.deep_view() == self.deep_view().join(
                path_of(crate::bytes::utf8(relative@)),
            ),
    {
        self.join(&FilePath::parse(relative))
    }

    /// Whether this path begins with all the components of `base`.
    pub fn starts_with(&self, base: &FilePath) -> (yes: bool)
        ensures
            yes == self.deep_view().starts_with(base.deep_view()),
    {
        proof {
            use_type_invariant(self);
            use_type_invariant(base);
        }
        if !base.absolute && base.parts.len() == 0 {
            return true;
        }
        if self.absolute != base.absolute || self.parts.len() < base.parts.len() {
            return false;
        }
        let ghost mine = self.deep_view().parts;
        let ghost theirs = base.deep_view().parts;
        for i in 0..base.parts.len()
            invariant
                mine == listed(self.parts@),
                theirs == listed(base.parts@),
                base.parts@.len() <= self.parts@.len(),
                base.parts@.len() == theirs.len(),
                !base.deep_view().is_empty(),
                base.deep_view().parts == theirs,
                self.deep_view().parts == mine,
                forall|j: int| 0 <= j < i ==> mine[j] == #[trigger] theirs[j],
        {
            if !same_bytes(self.parts[i].as_slice(), base.parts[i].as_slice()) {
                assert(mine.subrange(0, theirs.len() as int)[i as int] != theirs[i as int]);
                return false;
            }
        }
        assert(theirs =~= mine.subrange(0, theirs.len() as int));
        true
    }

    /// What is left of this path behind the components of `base`.
    pub fn strip_prefix(&self, base: &FilePath) -> (rest: Option<FilePath>)
        ensures
            rest.deep_view() == self.deep_view().strip_prefix(base.deep_view()),
            rest matches Some(rest) ==> rest.spelled() == rest_spelling(
                self.spelled(),
                base.deep_view(),
            ),
    {
        proof {
            use_type_invariant(self);
            use_type_invariant(base);
        }
        if !self.starts_with(base) {
            return None;
        }
        proof {
            rest_spelling_spells_rest(self.spelling@, base.deep_view());
        }
        let all = split_pieces(self.spelling.as_slice());
        let ghost whole = listed(all@);
        let count: usize = all.len();
        assert(whole.subrange(0, whole.len() as int) =~= whole);
        if !base.absolute && base.parts.len() == 0 {
            let end = settled_len(&all, self.absolute, 0, count);
            return Some(FilePath::respell(&all, end, self.absolute));
        }
        let from = find_reach(&all, self.absolute, base.parts.len());
        let begin = find_begun(&all, from);
        let end = settled_len(&all, true, begin, count);
        let spelling = spell_pieces(&all, begin, end);
        proof {
            assert(whole.skip(begin as int) =~= whole.subrange(begin as int, whole.len() as int));
        }
        Some(FilePath::from_bytes(spelling))
    }

    fn respell(all: &Vec<Vec<u8>>, end: usize, absolute: bool) -> (path: FilePath)
        requires
            end <= all@.len(),
        ensures
            path.spelled() == respelled(listed(all@).subrange(0, end as int), absolute),
            path.deep_view() == path_of(path.spelled()),
    {
        if end > 0 {
            let spelling = spell_pieces(all, 0, end);
            FilePath::from_bytes(spelling)
        } else if absolute {
            let mut root: Vec<u8> = Vec::new();
            root.push(SLASH);
            assert(root@ =~= seq![SLASH]);
            FilePath::from_bytes(root)
        } else {
            let nothing: Vec<u8> = Vec::new();
            assert(nothing@ =~= Seq::<u8>::empty());
            FilePath::from_bytes(nothing)
        }
    }

    /// The last component, if it is a name.
    pub fn file_name(&self) -> (name: Option<&[u8]>)
        ensures
            match name {
                Some(name) => self.deep_view().file_name() == Some(name@),
                None => self.deep_view().file_name() is None,
            },
    {
        proof {
            use_type_invariant(self);
        }
        if self.parts.len() == 0 {
            return None;
        }
        let last = &self.parts[self.parts.len() - 1];
        proof {
            assert(last@ == self.deep_view().parts.last());
            assert(last@.len() == 1 && last@[0] == DOT ==> last@ =~= seq![DOT]);
            assert(last@.len() == 2 && last@[0] == DOT && last@[1] == DOT ==> last@ =~= seq![
                DOT,
                DOT,
            ]);
        }
        if (last.len() == 1 && last[0] == DOT) || (last.len() == 2 && last[0] == DOT && last[1]
            == DOT) {
            None
        } else {
            Some(last.as_slice())
        }
    }

    /// The path without its last component.
    pub fn parent(&self) -> (parent: Option<FilePath>)
        ensures
            parent.deep_view() == self.deep_view().parent(),
            parent matches Some(parent) ==> parent.spelled() == parent_spelling(self.spelled()),
    {
        proof {
            use_type_invariant(self);
        }
        if self.parts.len() == 0 {
            return None;
        }
        let all = split_pieces(self.spelling.as_slice());
        let ghost whole = listed(all@);
        assert(whole.subrange(0, whole.len() as int) =~= whole);
        let last = settled_len(&all, self.absolute, 0, all.len());
        proof {
            parent_spelling_spells_parent(self.spelling@);
            lemma_settled(whole, self.absolute);
            assert(last > 0);
            assert(whole.subrange(0, last as int).drop_last() =~= whole.subrange(0, last - 1));
        }
        let end = settled_len(&all, self.absolute, 0, last - 1);
        Some(FilePath::respell(&all, end, self.absolute))
    }
}

/// How some paths are spelled.
pub open spec fn spellings(paths: Set<FilePath>) -> Set<Seq<u8>> {
    Set::new(
        |name: Seq<u8>|
            exists|path: FilePath| #[trigger] paths.contains(path) && path.spelled() == name,
    )
}

/// How the paths of a list are spelled.
pub open spec fn spellings_of(paths: Seq<FilePath>) -> Set<Seq<u8>> {
    Set::new(
        |name: Seq<u8>|
            exists|i: int| 0 <= i < paths.len() && (#[trigger] paths[i]).spelled() == name,
    )
}

/// One more path has one more spelling.
pub proof fn lemma_spelling_pushed(before: Seq<FilePath>, after: Seq<FilePath>)
    requires
        after.len() > 0,
        before =~= after.drop_last(),
    ensures
        spellings_of(after) == spellings_of(before).insert(after.last().spelled()),
{
    assert forall|name: Seq<u8>| #[trigger] spellings_of(after).contains(name) == spellings_of(
        before,
    ).insert(after.last().spelled()).contains(name) by {
        if spellings_of(after).contains(name) {
            let i = choose|i: int| 0 <= i < after.len() && (#[trigger] after[i]).spelled() == name;
            if i < before.len() {
                assert(before[i].spelled() == name);
            }
        }
        if spellings_of(before).contains(name) {
            let i = choose|i: int| 0 <= i < before.len() && (#[trigger] before[i]).spelled() == name;
            assert(after[i].spelled() == name);
        }
        assert(after[after.len() - 1].spelled() == after.last().spelled());
    }
    assert(spellings_of(after) =~= spellings_of(before).insert(after.last().spelled()));
}

/// The paths of two lists are spelled as those of either.
pub proof fn lemma_spellings_joined(left: Seq<FilePath>, right: Seq<FilePath>)
    ensures
        spellings_of(left + right) == spellings_of(left).union(spellings_of(right)),
{
    let both = left + right;
    assert forall|name: Seq<u8>| #[trigger] spellings_of(both).contains(name) == spellings_of(
        left,
    ).union(spellings_of(right)).contains(name) by {
        if spellings_of(both).contains(name) {
            let i = choose|i: int| 0 <= i < both.len() && (#[trigger] both[i]).spelled() == name;
            if i < left.len() {
                assert(left[i].spelled() == name);
            } else {
                assert(right[i - left.len()].spelled() == name);
            }
        }
        if spellings_of(left).contains(name) {
            let i = choose|i: int| 0 <= i < left.len() && (#[trigger] left[i]).spelled() == name;
            assert(both[i].spelled() == name);
        }
        if spellings_of(right).contains(name) {
            let i = choose|i: int| 0 <= i < right.len() && (#[trigger] right[i]).spelled() == name;
            assert(both[left.len() + i].spelled() == name);
        }
    }
    assert(spellings_of(both) =~= spellings_of(left).union(spellings_of(right)));
}

/// Whether two lists hold the same paths, spelled in the same way.
pub open spec fn spelled_alike(left: Seq<FilePath>, right: Seq<FilePath>) -> bool {
    &&& left.len() == right.len()
    &&& forall|i: int|
        0 <= i < left.len() ==> (#[trigger] left[i]).spelled() == right[i].spelled()
}

/// The same paths again, spelled in the same way.
pub fn copy_paths(paths: &Vec<FilePath>) -> (copy: Vec<FilePath>)
    ensures
        copy.deep_view() == paths.deep_view(),
        spelled_alike(copy@, paths@),
{
    let mut copy: Vec<FilePath> = Vec::new();
    for i in 0..paths.len()
        invariant
            copy@.len() == i,
            forall|j: int|
                0 <= j < i ==> (#[trigger] copy@[j]).spelled() == paths@[j].spelled()
                    && copy@[j].deep_view() == paths@[j].deep_view(),
    {
        copy.push(paths[i].dup());
    }
    assert(copy.deep_view() =~= paths.deep_view());
    copy
}

/// The number of pieces up to the one that is the `count`-th component.
fn find_reach(all: &Vec<Vec<u8>>, absolute: bool, count: usize) -> (at: usize)
    requires
        count <= counted(listed(all@), absolute).len(),
    ensures
        at <= all@.len(),
        at == reach(listed(all@), absolute, count as nat),
{
    let ghost whole = listed(all@);
    let mut at: usize = 0;
    let mut seen: usize = 0;
    assert(whole.take(0) =~= Seq::<Seq<u8>>::empty());
    assert(whole.take(whole.len() as int) =~= whole);
    while seen < count
        invariant
            at <= all@.len(),
            all@.len() == whole.len(),
            whole == listed(all@),
            seen <= at,
            seen <= count,
            count <= counted(whole, absolute).len(),
            whole.take(whole.len() as int) == whole,
            seen == counted(whole.take(at as int), absolute).len(),
            at > 0 && seen == count ==> counted(whole.take(at - 1), absolute).len() < count,
            seen == count && count == 0 ==> at == 0,
        decreases whole.len() - at,
    {
        if at == all.len() {
            assert(false);
        }
        let ghost longer = whole.take(at + 1);
        assert(longer.drop_last() =~= whole.take(at as int));
        assert(longer.last() == all@[at as int]@);
        if keep(&all[at], at, absolute) {
            seen = seen + 1;
        }
        at = at + 1;
        assert(whole.take(at - 1) =~= longer.drop_last());
    }
    proof {
        lemma_reach_is(whole, absolute, count as nat, at as int);
    }
    at
}

proof fn lemma_reach_is(all: Seq<Seq<u8>>, absolute: bool, count: nat, at: int)
    requires
        0 <= at <= all.len(),
        counted(all.take(at), absolute).len() == count,
        at > 0 ==> counted(all.take(at - 1), absolute).len() < count,
    ensures
        reach(all, absolute, count) == at,
    decreases all.len(),
{
    if at == all.len() {
        assert(all.take(at) =~= all);
        if at > 0 {
            assert(all.drop_last() =~= all.take(at - 1));
        }
    } else {
        let shorter = all.drop_last();
        assert(shorter.take(at) =~= all.take(at));
        if at > 0 {
            assert(shorter.take(at - 1) =~= all.take(at - 1));
        }
        lemma_counted_grows(shorter, absolute, at);
        lemma_reach_is(shorter, absolute, count, at);
    }
}

proof fn lemma_counted_grows(all: Seq<Seq<u8>>, absolute: bool, at: int)
    requires
        0 <= at <= all.len(),
    ensures
        counted(all.take(at), absolute).len() <= counted(all, absolute).len(),
    decreases all.len(),
{
    if at == all.len() {
        assert(all.take(at) =~= all);
    } else {
        assert(all.drop_last().take(at) =~= all.take(at));
        lemma_counted_grows(all.drop_last(), absolute, at);
    }
}

/// Where the first name stands behind some pieces.
fn find_begun(all: &Vec<Vec<u8>>, from: usize) -> (begin: usize)
    requires
        from <= all@.len(),
    ensures
        from <= begin <= all@.len(),
        begun(listed(all@).skip(from as int)) == listed(all@).skip(begin as int),
{
    let ghost whole = listed(all@);
    let mut begin: usize = from;
    while begin < all.len() && !keep(&all[begin], 0, true)
        invariant
            from <= begin <= all@.len(),
            all@.len() == whole.len(),
            whole == listed(all@),
            begun(whole.skip(from as int)) == begun(whole.skip(begin as int)),
        decreases all@.len() - begin,
    {
        proof {
            let now = whole.skip(begin as int);
            assert(now[0] == all@[begin as int]@);
            assert(now.skip(1) =~= whole.skip(begin + 1));
        }
        begin = begin + 1;
    }
    proof {
        let now = whole.skip(begin as int);
        if begin < whole.len() {
            assert(now[0] == all@[begin as int]@);
        }
    }
    begin
}

impl Value for FilePath {
    fn dup(&self) -> (copy: Self)
        ensures
            copy.spelled() == self.spelled(),
    {
        proof {
            use_type_invariant(self);
        }
        FilePath::from_bytes(copy_bytes(self.spelling.as_slice()))
    }

    fn same(&self, other: &Self) -> (equal: bool) {
        proof {
            use_type_invariant(self);
            use_type_invariant(other);
        }
        let ghost mine = listed(self.parts@);
        let ghost theirs = listed(other.parts@);
        assert(mine.len() == self.parts@.len() && theirs.len() == other.parts@.len());
        if self.absolute != other.absolute || self.parts.len() != other.parts.len() {
            return false;
        }
        for i in 0..self.parts.len()
            invariant
                mine == listed(self.parts@),
                theirs == listed(other.parts@),
                mine == self.deep_view().parts,
                theirs == other.deep_view().parts,
                self.parts@.len() == other.parts@.len(),
                forall|j: int| 0 <= j < i ==> mine[j] == #[trigger] theirs[j],
        {
            if !same_bytes(self.parts[i].as_slice(), other.parts[i].as_slice()) {
                assert(mine[i as int] != theirs[i as int]);
                return false;
            }
        }
        assert(mine =~= theirs);
        true
    }
}

} // verus!
