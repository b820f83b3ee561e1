//! Sorting by rank.
use vstd::prelude::*;

use crate::paths::{FilePath, PathView, DOT};
use crate::text;
use crate::values::Value;

verus! {

/// Lexicographic order of sequences of numbers.
pub open spec fn lex_le(left: Seq<u32>, right: Seq<u32>) -> bool
    decreases left.len(),
{
    if left.len() == 0 {
        true
    } else if right.len() == 0 {
        false
    } else {
        left[0] < right[0] || (left[0] == right[0] && lex_le(left.skip(1), right.skip(1)))
    }
}

proof fn lemma_lex_total(left: Seq<u32>, right: Seq<u32>)
    ensures
        lex_le(left, right) || lex_le(right, left),
    decreases left.len(),
{
    if left.len() > 0 && right.len() > 0 {
        lemma_lex_total(left.skip(1), right.skip(1));
    }
}

proof fn lemma_lex_transitive(a: Seq<u32>, b: Seq<u32>, c: Seq<u32>)
    requires
        lex_le(a, b),
        lex_le(b, c),
    ensures
        lex_le(a, c),
    decreases a.len(),
{
    if a.len() > 0 && a[0] == b[0] && b[0] == c[0] {
        lemma_lex_transitive(a.skip(1), b.skip(1), c.skip(1));
    }
}

/// The order is antisymmetric: of two different sequences one comes before the other.
pub proof fn lex_antisymmetric(left: Seq<u32>, right: Seq<u32>)
    requires
        lex_le(left, right),
        lex_le(right, left),
    ensures
        left == right,
    decreases left.len(),
{
    if left.len() > 0 {
        lex_antisymmetric(left.skip(1), right.skip(1));
        assert(left =~= seq![left[0]] + left.skip(1));
        assert(right =~= seq![right[0]] + right.skip(1));
    } else {
        assert(left =~= right);
    }
}

fn key_le(left: &Vec<u32>, right: &Vec<u32>) -> (yes: bool)
    ensures
        yes == lex_le(left@, right@),
{
    let mut i: usize = 0;
    assert(left@.skip(0) =~= left@);
    assert(right@.skip(0) =~= right@);
    while i < left.len() && i < right.len()
        invariant
            i <= left@.len(),
            i <= right@.len(),
            lex_le(left@, right@) == lex_le(left@.skip(i as int), right@.skip(i as int)),
        decreases left@.len() - i,
    {
        if left[i] < right[i] {
            return true;
        }
        if left[i] > right[i] {
            return false;
        }
        assert(left@.skip(i as int).skip(1) =~= left@.skip(i + 1));
        assert(right@.skip(i as int).skip(1) =~= right@.skip(i + 1));
        i = i + 1;
    }
    i == left.len()
}

/// A value with a place in an order.
pub trait Ranked: Value {
    /// The rank of what the value stands for.
    spec fn rank(view: Self::V) -> Seq<u32>;

    /// The rank.
    fn sort_key(&self) -> (key: Vec<u32>)
        ensures
            key@ == Self::rank(self.deep_view()),
    ;
}

/// Each item's rank is at most that of the items behind it.
pub open spec fn ascending<T: Ranked>(items: Seq<T::V>) -> bool {
    forall|i: int, j: int|
        0 <= i < j < items.len() ==> lex_le(
            T::rank(#[trigger] items[i]),
            T::rank(#[trigger] items[j]),
        )
}

/// Where an item belongs in a sorted list: before the first item whose rank is not smaller.
fn place<T: Ranked>(items: &Vec<T>, key: &Vec<u32>) -> (at: usize)
    requires
        ascending::<T>(items.deep_view()),
    ensures
        at <= items@.len(),
        forall|i: int| 0 <= i < at ==> !lex_le(key@, T::rank(#[trigger] items.deep_view()[i])),
        forall|i: int|
            at <= i < items@.len() ==> lex_le(key@, T::rank(#[trigger] items.deep_view()[i])),
{
    let mut at: usize = 0;
    while at < items.len()
        invariant
            at <= items@.len(),
            ascending::<T>(items.deep_view()),
            forall|i: int| 0 <= i < at ==> !lex_le(key@, T::rank(#[trigger] items.deep_view()[i])),
        decreases items@.len() - at,
    {
        let other = items[at].sort_key();
        if key_le(key, &other) {
            proof {
                let views = items.deep_view();
                assert(views[at as int] == items@[at as int].deep_view());
                assert forall|i: int| at <= i < items@.len() implies lex_le(
                    key@,
                    T::rank(#[trigger] views[i]),
                ) by {
                    if i > at {
                        assert(lex_le(T::rank(views[at as int]), T::rank(views[i])));
                        lemma_lex_transitive(
                            key@,
                            T::rank(views[at as int]),
                            T::rank(views[i]),
                        );
                    }
                }
            }
            return at;
        }
        assert(items.deep_view()[at as int] == items@[at as int].deep_view());
        at = at + 1;
    }
    at
}

proof fn lemma_insert_ascending<T: Ranked>(items: Seq<T::V>, at: int, item: T::V)
    requires
        ascending::<T>(items),
        0 <= at <= items.len(),
        forall|i: int| 0 <= i < at ==> !lex_le(T::rank(item), T::rank(#[trigger] items[i])),
        forall|i: int| at <= i < items.len() ==> lex_le(T::rank(item), T::rank(#[trigger] items[i])),
    ensures
        ascending::<T>(items.insert(at, item)),
        items.insert(at, item).to_multiset() == items.to_multiset().insert(item),
{
    let after = items.insert(at, item);
    assert forall|i: int, j: int| 0 <= i < j < after.len() implies lex_le(
        T::rank(#[trigger] after[i]),
        T::rank(#[trigger] after[j]),
    ) by {
        let a = if i < at {
            i
        } else {
            i - 1
        };
        let b = if j < at {
            j
        } else {
            j - 1
        };
        if i == at {
            assert(after[j] == items[b]);
        } else if j == at {
            assert(after[i] == items[a]);
            lemma_lex_total(T::rank(item), T::rank(items[a]));
        } else {
            assert(after[i] == items[a]);
            assert(after[j] == items[b]);
        }
    }
    assert(after.remove(at) =~= items);
    vstd::seq_lib::to_multiset_remove(after, at);
    after.to_multiset_ensures();
    assert(after.contains(after[at]));
    assert(items.to_multiset().insert(item) =~= after.to_multiset());
}

/// Sorts by rank.
pub fn sorted<T: Ranked>(items: Vec<T>) -> (result: Vec<T>)
    ensures
        ascending::<T>(result.deep_view()),
        result.deep_view().to_multiset() == items.deep_view().to_multiset(),
        result@.to_multiset() == items@.to_multiset(),
{
    let ghost all = items.deep_view();
    let ghost given = items@;
    let mut items = items;
    let mut result: Vec<T> = Vec::new();
    proof {
        assert(result.deep_view() =~= Seq::<T::V>::empty());
        result.deep_view().to_multiset_ensures();
        assert(items.deep_view().to_multiset().add(result.deep_view().to_multiset())
            =~= all.to_multiset());
        result@.to_multiset_ensures();
        assert(items@.to_multiset().add(result@.to_multiset()) =~= given.to_multiset());
    }
    while items.len() > 0
        invariant
            ascending::<T>(result.deep_view()),
            items.deep_view().to_multiset().add(result.deep_view().to_multiset())
                == all.to_multiset(),
            items@.to_multiset().add(result@.to_multiset()) == given.to_multiset(),
        decreases items@.len(),
    {
        let ghost rest = items.deep_view();
        let ghost done = result.deep_view();
        let ghost left = items@;
        let ghost taken = result@;
        match items.pop() {
            Some(item) => {
                let key = item.sort_key();
                let at: usize = place(&result, &key);
                let ghost view = item.deep_view();
                result.insert(at, item);
                proof {
                    assert(items.deep_view() =~= rest.drop_last());
                    assert(rest =~= rest.drop_last().push(view));
                    vstd::seq_lib::to_multiset_build(rest.drop_last(), view);
                    lemma_insert_ascending::<T>(done, at as int, view);
                    assert(result.deep_view() =~= done.insert(at as int, view));
                    assert(items.deep_view().to_multiset().add(result.deep_view().to_multiset())
                        =~= all.to_multiset());
                    assert(left =~= left.drop_last().push(item));
                    vstd::seq_lib::to_multiset_build(left.drop_last(), item);
                    lemma_insert_multiset(taken, at as int, item);
                    assert(items@.to_multiset().add(result@.to_multiset())
                        =~= given.to_multiset());
                }
            },
            None => {},
        }
    }
    proof {
        assert(items.deep_view() =~= Seq::<T::V>::empty());
        items.deep_view().to_multiset_ensures();
        assert(result.deep_view().to_multiset() =~= all.to_multiset());
        assert(items@ =~= Seq::<T>::empty());
        items@.to_multiset_ensures();
        assert(result@.to_multiset() =~= given.to_multiset());
    }
    result
}

proof fn lemma_insert_multiset<A>(items: Seq<A>, at: int, item: A)
    requires
        0 <= at <= items.len(),
    ensures
        items.insert(at, item).to_multiset() == items.to_multiset().insert(item),
{
    let after = items.insert(at, item);
    after.to_multiset_ensures();
    assert(after.remove(at) =~= items);
    assert(after[at] == item);
    assert(after.contains(item));
    assert(after.to_multiset() =~= items.to_multiset().insert(item));
}

/// Whether an item is the first of those in a list that mean the same.
pub open spec fn is_first<T: DeepView>(items: Seq<T>, item: T) -> bool {
    exists|j: int|
        0 <= j < items.len() && #[trigger] items[j] == item && forall|k: int|
            0 <= k < j ==> (#[trigger] items[k]).deep_view() != item.deep_view()
}

proof fn lemma_first_before<T: DeepView>(front: T, items: Seq<T>, item: T)
    requires
        is_first(items, item),
        front.deep_view() != item.deep_view(),
    ensures
        is_first(seq![front] + items, item),
{
    let all = seq![front] + items;
    let j = choose|j: int|
        0 <= j < items.len() && #[trigger] items[j] == item && forall|k: int|
            0 <= k < j ==> (#[trigger] items[k]).deep_view() != item.deep_view();
    assert(all[j + 1] == item);
    assert forall|k: int| 0 <= k < j + 1 implies (#[trigger] all[k]).deep_view()
        != item.deep_view() by {
        if k > 0 {
            assert(all[k] == items[k - 1]);
        }
    }
}

/// Sorts by rank and keeps the first of those that mean the same.
pub fn sorted_unique<T: Ranked>(items: Vec<T>) -> (result: Vec<T>)
    ensures
        ascending::<T>(result.deep_view()),
        result.deep_view().no_duplicates(),
        result.deep_view().to_set() == items.deep_view().to_set(),
        forall|i: int| 0 <= i < result@.len() ==> is_first(items@, #[trigger] result@[i]),
{
    let ghost all = items.deep_view();
    let ghost given = items@;
    let mut items = items;
    let mut result: Vec<T> = Vec::new();
    proof {
        assert(result.deep_view() =~= Seq::<T::V>::empty());
        assert(items.deep_view().to_set().union(result.deep_view().to_set()) =~= all.to_set());
    }
    while items.len() > 0
        invariant
            ascending::<T>(result.deep_view()),
            result.deep_view().no_duplicates(),
            items.deep_view().to_set().union(result.deep_view().to_set()) == all.to_set(),
            items@.len() <= given.len(),
            items@ == given.take(items@.len() as int),
            forall|i: int|
                0 <= i < result@.len() ==> is_first(
                    given.skip(items@.len() as int),
                    #[trigger] result@[i],
                ),
        decreases items@.len(),
    {
        let ghost rest = items.deep_view();
        let ghost done = result.deep_view();
        let ghost taken = result@;
        let ghost later = given.skip(items@.len() as int);
        match items.pop() {
            Some(item) => {
                let ghost view = item.deep_view();
                let ghost now = given.skip(items@.len() as int);
                proof {
                    assert(now =~= seq![item] + later);
                    assert(now[0] == item);
                    assert(is_first(now, item));
                    assert(items@ =~= given.take(items@.len() as int));
                    assert(items.deep_view() =~= rest.drop_last());
                    assert(rest.to_set() =~= rest.drop_last().to_set().insert(view)) by {
                        assert(rest =~= rest.drop_last().push(view));
                        broadcast use vstd::seq_lib::group_seq_properties;

                    }
                }
                let known = position(&result, &item);
                if let Some(at) = known {
                    let _ = result.remove(at);
                    result.insert(at, item);
                    proof {
                        assert(result@ =~= taken.update(at as int, item));
                        assert(result.deep_view() =~= done);
                        assert(done.contains(done[at as int]));
                        assert forall|i: int| 0 <= i < result@.len() implies is_first(
                            now,
                            #[trigger] result@[i],
                        ) by {
                            if i != at {
                                assert(done[i] != done[at as int]);
                                assert(taken[i].deep_view() == done[i]);
                                lemma_first_before(item, later, taken[i]);
                            }
                        }
                    }
                } else {
                    let key = item.sort_key();
                    let at: usize = place(&result, &key);
                    result.insert(at, item);
                    proof {
                        lemma_insert_ascending::<T>(done, at as int, view);
                        let after = done.insert(at as int, view);
                        assert(result.deep_view() =~= after);
                        assert forall|x: T::V| #[trigger] after.to_set().contains(x)
                            == done.to_set().insert(view).contains(x) by {
                            if done.contains(x) {
                                let i = choose|i: int| 0 <= i < done.len() && done[i] == x;
                                if i < at {
                                    assert(after[i] == x);
                                } else {
                                    assert(after[i + 1] == x);
                                }
                            }
                            if x == view {
                                assert(after[at as int] == x);
                            }
                            if after.contains(x) && x != view {
                                let i = choose|i: int| 0 <= i < after.len() && after[i] == x;
                                if i < at {
                                    assert(done[i] == x);
                                } else {
                                    assert(done[i - 1] == x);
                                }
                            }
                        }
                        assert forall|i: int, j: int|
                            0 <= i < after.len() && 0 <= j < after.len() && i != j implies after[i]
                            != after[j] by {
                            let a = if i < at {
                                i
                            } else {
                                i - 1
                            };
                            let b = if j < at {
                                j
                            } else {
                                j - 1
                            };
                            if i != at {
                                assert(done[a] == after[i]);
                                assert(done.contains(done[a]));
                            }
                            if j != at {
                                assert(done[b] == after[j]);
                                assert(done.contains(done[b]));
                            }
                        }
                        assert(after.to_set() =~= done.to_set().insert(view));
                        assert forall|i: int| 0 <= i < result@.len() implies is_first(
                            now,
                            #[trigger] result@[i],
                        ) by {
                            if i != at {
                                let from = if i < at {
                                    i
                                } else {
                                    i - 1
                                };
                                assert(result@[i] == taken[from]);
                                assert(done[from] == taken[from].deep_view());
                                assert(done.contains(done[from]));
                                lemma_first_before(item, later, taken[from]);
                            }
                        }
                    }
                }
                assert(items.deep_view().to_set().union(result.deep_view().to_set())
                    =~= all.to_set());
            },
            None => {},
        }
    }
    proof {
        assert(items.deep_view().to_set() =~= Set::<T::V>::empty());
        assert(result.deep_view().to_set() =~= all.to_set());
        assert(given.skip(0) =~= given);
    }
    result
}

/// Where the list holds the item.
fn position<T: Value>(items: &Vec<T>, item: &T) -> (at: Option<usize>)
    ensures
        match at {
            Some(at) => at < items@.len() && items.deep_view()[at as int] == item.deep_view(),
            None => !items.deep_view().contains(item.deep_view()),
        },
{
    for i in 0..items.len()
        invariant
            forall|j: int| 0 <= j < i ==> #[trigger] items.deep_view()[j] != item.deep_view(),
    {
        assert(items.deep_view()[i as int] == items@[i as int].deep_view());
        if items[i].same(item) {
            return Some(i);
        }
    }
    None
}

/// Whether the list holds the item.
pub fn listed<T: Value>(items: &Vec<T>, item: &T) -> (yes: bool)
    ensures
        yes == items.deep_view().contains(item.deep_view()),
{
    match position(items, item) {
        Some(at) => {
            assert(items.deep_view().contains(items.deep_view()[at as int]));
            true
        },
        None => false,
    }
}

/// The numbers of the characters of a text, each raised by one so that none is zero.
pub open spec fn char_ranks(text: Seq<char>) -> Seq<u32> {
    Seq::new(text.len(), |i: int| (text[i] as u32 + 1) as u32)
}

pub(crate) fn push_chars(key: &mut Vec<u32>, text: &str)
    ensures
        final(key)@ == old(key)@ + char_ranks(text@),
{
    let chars = text::chars_of(text);
    let ghost before = key@;
    assert(before + char_ranks(text@).take(0) =~= before);
    for i in 0..chars.len()
        invariant
            chars@ == text@,
            key@ == before + char_ranks(text@).take(i as int),
    {
        let c: char = chars[i];
        proof {
            vstd::utf8::char_is_scalar(c);
        }
        key.push(c as u32 + 1);
        assert(key@ =~= before + char_ranks(text@).take(i + 1));
    }
    assert(char_ranks(text@).take(text@.len() as int) =~= char_ranks(text@));
}

impl Ranked for String {
    open spec fn rank(view: Seq<char>) -> Seq<u32> {
        char_ranks(view)
    }

    fn sort_key(&self) -> (key: Vec<u32>) {
        let mut key: Vec<u32> = Vec::new();
        push_chars(&mut key, self.as_str());
        assert(key@ =~= char_ranks(self@));
        key
    }
}

/// The ranks of bytes.
pub open spec fn byte_ranks(bytes: Seq<u8>) -> Seq<u32> {
    bytes.map_values(|byte: u8| (byte + 1) as u32)
}

fn push_bytes(key: &mut Vec<u32>, bytes: &[u8])
    ensures
        final(key)@ == old(key)@ + byte_ranks(bytes@),
{
    let ghost before = key@;
    assert(before + byte_ranks(bytes@).take(0) =~= before);
    for i in 0..bytes.len()
        invariant
            key@ == before + byte_ranks(bytes@).take(i as int),
    {
        let rank: u32 = bytes[i] as u32 + 1;
        key.push(rank);
        assert(key@ =~= before + byte_ranks(bytes@).take(i + 1));
    }
    assert(byte_ranks(bytes@).take(bytes@.len() as int) =~= byte_ranks(bytes@));
}

/// The rank of a component: the root comes first, then `.`, then `..`, then names.
pub open spec fn part_rank(part: Seq<u8>) -> Seq<u32> {
    if part == seq![DOT] {
        seq![2u32, 0u32]
    } else if part == seq![DOT, DOT] {
        seq![3u32, 0u32]
    } else {
        (seq![4u32] + byte_ranks(part)).push(0u32)
    }
}

/// The ranks of some components, one behind the other.
pub open spec fn parts_rank(parts: Seq<Seq<u8>>) -> Seq<u32>
    decreases parts.len(),
{
    if parts.len() == 0 {
        Seq::empty()
    } else {
        parts_rank(parts.drop_last()) + part_rank(parts.last())
    }
}

/// The rank of a path: its components in turn.
pub open spec fn path_rank(path: PathView) -> Seq<u32> {
    if path.absolute {
        seq![1u32, 0u32] + parts_rank(path.parts)
    } else {
        parts_rank(path.parts)
    }
}

impl Ranked for FilePath {
    open spec fn rank(view: PathView) -> Seq<u32> {
        path_rank(view)
    }

    fn sort_key(&self) -> (key: Vec<u32>) {
        let mut key: Vec<u32> = Vec::new();
        if self.is_absolute() {
            key.push(1);
            key.push(0);
        }
        let ghost root = key@;
        let ghost parts = self.deep_view().parts;
        assert(root =~= if self.deep_view().absolute {
            seq![1u32, 0u32]
        } else {
            Seq::empty()
        });
        assert(root + parts_rank(parts.take(0)) =~= root);
        let count: usize = self.part_count();
        for i in 0..count
            invariant
                count == parts.len(),
                parts == self.deep_view().parts,
                key@ == root + parts_rank(parts.take(i as int)),
        {
            let part = self.part(i);
            let ghost before = key@;
            assert(part@.len() == 1 && part@[0] == DOT ==> part@ =~= seq![DOT]);
            assert(part@.len() == 2 && part@[0] == DOT && part@[1] == DOT ==> part@ =~= seq![
                DOT,
                DOT,
            ]);
            if part.len() == 1 && part[0] == DOT {
                key.push(2);
            } else if part.len() == 2 && part[0] == DOT && part[1] == DOT {
                key.push(3);
            } else {
                key.push(4);
                push_bytes(&mut key, part);
            }
            key.push(0);
            proof {
                let longer = parts.take(i + 1);
                assert(longer.drop_last() =~= parts.take(i as int));
                assert(longer.last() == part@);
                assert(key@ =~= before + part_rank(part@));
                assert(key@ =~= root + parts_rank(longer));
            }
        }
        assert(parts.take(parts.len() as int) =~= parts);
        assert(key@ =~= path_rank(self.deep_view()));
        assert(Self::rank(self.deep_view()) == path_rank(self.deep_view()));
        key
    }
}

/// In lexicographic order the first difference decides, and a sequence comes before those that go on behind it.
pub proof fn first_difference_decides(
    common: Seq<u32>,
    low: u32,
    high: u32,
    left: Seq<u32>,
    right: Seq<u32>,
)
    requires
        low < high,
    ensures
        lex_le(common.push(low) + left, common.push(high) + right),
        !lex_le(common.push(high) + right, common.push(low) + left),
        lex_le(common, common + left),
        left.len() > 0 ==> !lex_le(common + left, common),
    decreases common.len(),
{
    let a = common.push(low) + left;
    let b = common.push(high) + right;
    let c = common + left;
    if common.len() > 0 {
        let rest = common.skip(1);
        first_difference_decides(rest, low, high, left, right);
        assert(a.skip(1) =~= rest.push(low) + left);
        assert(b.skip(1) =~= rest.push(high) + right);
        assert(c.skip(1) =~= rest + left);
        assert(a[0] == common[0] && b[0] == common[0]);
        if c.len() > 0 {
            assert(c[0] == common[0]);
        }
    }
}

/// Texts are in the order of their first different characters, and a text comes before those that go on behind it.
pub proof fn texts_are_in_order(
    common: Seq<char>,
    low: char,
    high: char,
    left: Seq<char>,
    right: Seq<char>,
)
    requires
        low < high,
    ensures
        lex_le(
            String::rank(common.push(low) + left),
            String::rank(common.push(high) + right),
        ),
        !lex_le(
            String::rank(common.push(high) + right),
            String::rank(common.push(low) + left),
        ),
        lex_le(String::rank(common), String::rank(common + left)),
        left.len() > 0 ==> !lex_le(String::rank(common + left), String::rank(common)),
{
    let l: u32 = (low as u32 + 1) as u32;
    let h: u32 = (high as u32 + 1) as u32;
    vstd::utf8::char_is_scalar(low);
    vstd::utf8::char_is_scalar(high);
    let front = char_ranks(common);
    assert(String::rank(common.push(low) + left) =~= front.push(l) + char_ranks(left));
    assert(String::rank(common.push(high) + right) =~= front.push(h) + char_ranks(right));
    assert(String::rank(common + left) =~= front + char_ranks(left));
    first_difference_decides(front, l, h, char_ranks(left), char_ranks(right));
}

proof fn lemma_parts_rank_joined(front: Seq<Seq<u8>>, back: Seq<Seq<u8>>)
    ensures
        parts_rank(front + back) == parts_rank(front) + parts_rank(back),
    decreases back.len(),
{
    if back.len() == 0 {
        assert(front + back =~= front);
        assert(parts_rank(front) + parts_rank(back) =~= parts_rank(front));
    } else {
        let all = front + back;
        assert(all.drop_last() =~= front + back.drop_last());
        lemma_parts_rank_joined(front, back.drop_last());
        assert(parts_rank(all) =~= parts_rank(front) + parts_rank(back));
    }
}

/// A directory comes before what lies below it.
pub proof fn directories_come_first(dir: PathView, below: Seq<Seq<u8>>)
    requires
        below.len() > 0,
    ensures
        lex_le(
            FilePath::rank(dir),
            FilePath::rank(PathView { absolute: dir.absolute, parts: dir.parts + below }),
        ),
        !lex_le(
            FilePath::rank(PathView { absolute: dir.absolute, parts: dir.parts + below }),
            FilePath::rank(dir),
        ),
{
    lemma_parts_rank_joined(dir.parts, below);
    let path = PathView { absolute: dir.absolute, parts: dir.parts + below };
    let tail = parts_rank(below);
    assert(path_rank(path) =~= path_rank(dir) + tail);
    assert(tail.len() > 0) by {
        assert(part_rank(below.last()).len() > 0);
    }
    first_difference_decides(path_rank(dir), 0, 1, tail, tail);
}

/// Paths are in the order of their first different components, and names in that of their first different bytes.
pub proof fn paths_are_in_order(
    absolute: bool,
    front: Seq<Seq<u8>>,
    common: Seq<u8>,
    low: u8,
    high: u8,
    left: Seq<u8>,
    right: Seq<u8>,
    left_below: Seq<Seq<u8>>,
    right_below: Seq<Seq<u8>>,
)
    requires
        low < high,
        common.push(low) + left != seq![DOT],
        common.push(low) + left != seq![DOT, DOT],
        common.push(high) + right != seq![DOT],
        common.push(high) + right != seq![DOT, DOT],
    ensures
        ({
            let one = PathView {
                absolute,
                parts: front.push(common.push(low) + left) + left_below,
            };
            let two = PathView {
                absolute,
                parts: front.push(common.push(high) + right) + right_below,
            };
            lex_le(FilePath::rank(one), FilePath::rank(two)) && !lex_le(
                FilePath::rank(two),
                FilePath::rank(one),
            )
        }),
{
    let p = common.push(low) + left;
    let q = common.push(high) + right;
    let one = PathView { absolute, parts: front.push(p) + left_below };
    let two = PathView { absolute, parts: front.push(q) + right_below };
    lemma_parts_rank_joined(front.push(p), left_below);
    lemma_parts_rank_joined(front.push(q), right_below);
    assert(front.push(p).drop_last() =~= front);
    assert(front.push(q).drop_last() =~= front);
    let root = if absolute {
        seq![1u32, 0u32]
    } else {
        Seq::empty()
    };
    let head = root + parts_rank(front) + seq![4u32] + byte_ranks(common);
    let l: u32 = (low + 1) as u32;
    let h: u32 = (high + 1) as u32;
    let rest_one = byte_ranks(left).push(0u32) + parts_rank(left_below);
    let rest_two = byte_ranks(right).push(0u32) + parts_rank(right_below);
    assert(byte_ranks(p) =~= byte_ranks(common).push(l) + byte_ranks(left));
    assert(byte_ranks(q) =~= byte_ranks(common).push(h) + byte_ranks(right));
    assert(path_rank(one) =~= head.push(l) + rest_one);
    assert(path_rank(two) =~= head.push(h) + rest_two);
    first_difference_decides(head, l, h, rest_one, rest_two);
}

} // verus!
