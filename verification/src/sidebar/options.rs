//! How the sidebar is set up: options of tmux, settings of the user and the configuration.
use vstd::prelude::*;

use super::state::SidebarLayoutMode;
use crate::config::{Config, SidebarPosition};
use crate::tables::KeySet;
use crate::text;
use crate::values::Value;

verus! {

/// The layout that a word names.
pub open spec fn layout_named(word: Option<Seq<char>>) -> Option<SidebarLayoutMode> {
    if word == Some("tiles"@) {
        Some(SidebarLayoutMode::Tiles)
    } else if word == Some("compact"@) {
        Some(SidebarLayoutMode::Compact)
    } else {
        None
    }
}

fn layout_of(word: Option<&str>) -> (layout: Option<SidebarLayoutMode>)
    ensures
        layout == layout_named(
            match word {
                Some(word) => Some(word@),
                None => None,
            },
        ),
{
    match word {
        Some(word) => if text::same_text(word, "tiles") {
            Some(SidebarLayoutMode::Tiles)
        } else if text::same_text(word, "compact") {
            Some(SidebarLayoutMode::Compact)
        } else {
            None
        },
        None => None,
    }
}

/// A text without the white space around it.
pub open spec fn option_trimmed(value: Option<Seq<char>>) -> Option<Seq<char>> {
    match value {
        Some(value) => Some(crate::text::trimmed(value)),
        None => None,
    }
}

/// The characters of an optional text.
pub open spec fn option_view(value: Option<&str>) -> Option<Seq<char>> {
    match value {
        Some(value) => Some(value@),
        None => None,
    }
}

/// The first of three that is there.
pub open spec fn first_of<T>(a: Option<T>, b: Option<T>, c: Option<T>) -> Option<T> {
    if a is Some {
        a
    } else if b is Some {
        b
    } else {
        c
    }
}

/// The layout by an option of tmux, by a setting that the user left and by a configuration.
pub open spec fn layout_read(
    tmux_value: Option<Seq<char>>,
    persisted: Option<Seq<char>>,
    configured: Option<Seq<char>>,
) -> Option<SidebarLayoutMode> {
    first_of(
        layout_named(option_trimmed(tmux_value)),
        layout_named(persisted),
        layout_named(configured),
    )
}

/// The layout of the sidebar: by the option of tmux, else by the setting that the user left, else
/// by the configuration.
pub fn read_sidebar_layout_mode(
    config: &Config,
    tmux_value: Option<&str>,
    persisted: Option<&str>,
) -> (layout: Option<SidebarLayoutMode>)
    ensures
        layout == layout_read(
            option_view(tmux_value),
            option_view(persisted),
            config.deep_view().sidebar.layout,
        ),
{
    let tmux_word = match tmux_value {
        Some(value) => Some(text::trim(value)),
        None => None,
    };
    if let Some(layout) = layout_of(tmux_word) {
        return Some(layout);
    }
    if let Some(layout) = layout_of(persisted) {
        return Some(layout);
    }
    let configured = match &config.sidebar.layout {
        Some(layout) => Some(layout.as_str()),
        None => None,
    };
    layout_of(configured)
}

/// The name of the filter of the sidebar: by the option of tmux, else by the setting that the user
/// left.
pub fn read_sidebar_filter_mode<'a>(
    tmux_value: Option<&'a str>,
    persisted: Option<&'a str>,
) -> (name: Option<&'a str>)
    ensures
        option_view(name) == first_of(
            option_view(tmux_value),
            option_view(persisted),
            None::<Seq<char>>,
        ),
{
    match tmux_value {
        Some(value) => Some(value),
        None => persisted,
    }
}

/// The position by an option of tmux and by a configuration, and else this one.
pub open spec fn position_read(
    tmux_value: Option<Seq<char>>,
    configured: Option<SidebarPosition>,
    unset: SidebarPosition,
) -> SidebarPosition {
    match option_trimmed(tmux_value) {
        Some(word) if word == "top"@ => SidebarPosition::Top,
        Some(word) if word == "left"@ => SidebarPosition::Left,
        _ => match configured {
            Some(position) => position,
            None => unset,
        },
    }
}

/// Where the sidebar stands: by the option of tmux, else by the configuration, else by `unset`.
pub fn read_sidebar_position(
    config: &Config,
    tmux_value: Option<&str>,
    unset: SidebarPosition,
) -> (position: SidebarPosition)
    ensures
        position == position_read(option_view(tmux_value), config.sidebar.position, unset),
{
    if let Some(value) = tmux_value {
        let word = text::trim(value);
        if text::same_text(word, "top") {
            return SidebarPosition::Top;
        }
        if text::same_text(word, "left") {
            return SidebarPosition::Left;
        }
    }
    match config.sidebar.position {
        Some(position) => position,
        None => unset,
    }
}

/// The panes that were put to sleep by hand.
pub fn read_sleeping_panes(tmux_value: Option<&str>) -> (panes: KeySet<String>)
    ensures
        panes.deep_view() == (match tmux_value {
            Some(value) => crate::text::words(value@).to_set(),
            None => Set::<Seq<char>>::empty(),
        }),
{
    let mut panes: KeySet<String> = KeySet::new();
    let value = match tmux_value {
        Some(value) => value,
        None => {
            return panes;
        },
    };
    let found = text::split_whitespace(value);
    let ghost listed = found.deep_view();
    assert(listed.take(0).to_set() =~= Set::<Seq<char>>::empty());
    for i in 0..found.len()
        invariant
            listed == found.deep_view(),
            panes.deep_view() == listed.take(i as int).to_set(),
    {
        panes.insert(found[i].dup());
        proof {
            assert(listed.take(i + 1) =~= listed.take(i as int).push(listed[i as int]));
            broadcast use vstd::seq_lib::group_seq_properties;

            assert(listed.take(i + 1).to_set() =~= listed.take(i as int).to_set().insert(
                listed[i as int],
            ));
        }
    }
    assert(listed.take(listed.len() as int) =~= listed);
    panes
}

/// The file name of the socket of an instance.
pub open spec fn socket_name(instance_id: Seq<char>) -> Seq<char> {
    "workmux-sidebar-"@ + instance_id.map_values(
        |c: char|
            if c == '/' || c == '\\' {
                '-'
            } else {
                c
            },
    ) + ".sock"@
}

/// The path of the socket of an instance, in the directory for temporary files.
pub fn socket_path(temp_dir: &crate::paths::FilePath, instance_id: &str) -> (path:
    crate::paths::FilePath)
    ensures
        path.deep_view() == temp_dir.deep_view().join(
            crate::paths::path_of(crate::bytes::utf8(socket_name(instance_id@))),
        ),
        path.spelled() == crate::paths::joined(
            temp_dir.spelled(),
            crate::bytes::utf8(socket_name(instance_id@)),
        ),
{
    let chars = text::chars_of(instance_id);
    let mut name = "workmux-sidebar-".to_owned();
    let ghost prefix = name@;
    let ghost dash = |c: char|
        if c == '/' || c == '\\' {
            '-'
        } else {
            c
        };
    assert(prefix + instance_id@.take(0).map_values(dash) =~= prefix);
    for i in 0..chars.len()
        invariant
            chars@ == instance_id@,
            dash == (|c: char|
                if c == '/' || c == '\\' {
                    '-'
                } else {
                    c
                }),
            name@ == prefix + instance_id@.take(i as int).map_values(dash),
    {
        let c = chars[i];
        let safe = if c == '/' || c == '\\' {
            '-'
        } else {
            c
        };
        name.push(safe);
        proof {
            assert(instance_id@.take(i + 1) =~= instance_id@.take(i as int).push(c));
            assert(instance_id@.take(i + 1).map_values(dash) =~= instance_id@.take(
                i as int,
            ).map_values(dash).push(safe));
            assert(name@ =~= prefix + instance_id@.take(i + 1).map_values(dash));
        }
    }
    assert(instance_id@.take(instance_id@.len() as int) =~= instance_id@);
    name.append(".sock");
    assert(name@ =~= socket_name(instance_id@));
    temp_dir.child(name.as_str())
}

/// The socket lies in the directory for temporary files itself, whatever the instance is called.
pub proof fn socket_stays_in_its_directory(temp_dir: crate::paths::PathView, instance_id: Seq<char>)
    requires
        !temp_dir.is_empty(),
    ensures
        temp_dir.join(crate::paths::path_of(crate::bytes::utf8(socket_name(instance_id)))).parent() == Some(temp_dir),
{
    let name = socket_name(instance_id);
    reveal_strlit("workmux-sidebar-");
    reveal_strlit(".sock");
    let middle = instance_id.map_values(
        |c: char|
            if c == '/' || c == '\\' {
                '-'
            } else {
                c
            },
    );
    assert(!name.contains('/')) by {
        assert forall|i: int| 0 <= i < name.len() implies name[i] != '/' by {
            if i < 16 {
                assert(name[i] == "workmux-sidebar-"@[i]);
            } else if i < 16 + middle.len() {
                assert(name[i] == middle[i - 16]);
            } else {
                assert(name[i] == ".sock"@[i - 16 - middle.len()]);
            }
        }
    }
    crate::bytes::utf8_keeps_slashes(name);
    let bytes = crate::bytes::utf8(name);
    crate::paths::lemma_path_of_name(bytes);
    assert(bytes.len() != seq![crate::paths::DOT].len());
    let joined = temp_dir.join(crate::paths::path_of(bytes));
    assert(joined.parts.drop_last() =~= temp_dir.parts);
}

/// A layout is `tiles` or `compact`; the option of tmux decides if it names one, in white space or not, else the
/// setting that the user left if it names one, else the configuration.
pub proof fn layouts_are_read_in_turn(
    tmux_value: Option<Seq<char>>,
    persisted: Option<Seq<char>>,
    configured: Option<Seq<char>>,
    mode: SidebarLayoutMode,
)
    requires
        mode == SidebarLayoutMode::Tiles || mode == SidebarLayoutMode::Compact,
    ensures
        ({
            let name = if mode == SidebarLayoutMode::Tiles {
                "tiles"@
            } else {
                "compact"@
            };
            let set = tmux_value is Some && (crate::text::trimmed(tmux_value->0) == "tiles"@
                || crate::text::trimmed(tmux_value->0) == "compact"@);
            let left = persisted == Some("tiles"@) || persisted == Some("compact"@);
            let layout = layout_read(tmux_value, persisted, configured);
            &&& tmux_value is Some && crate::text::trimmed(tmux_value->0) == name ==> layout == Some(
                mode,
            )
            &&& !set && persisted == Some(name) ==> layout == Some(mode)
            &&& !set && !left && configured == Some(name) ==> layout == Some(mode)
            &&& !set && !left && configured != Some("tiles"@) && configured != Some("compact"@)
                ==> layout is None
        }),
{
    reveal_strlit("tiles");
    reveal_strlit("compact");
    assert("tiles"@.len() != "compact"@.len());
}

/// The option of tmux decides on the position if it says `top` or `left`, in white space or not; else the
/// configuration does, if it says anything.
pub proof fn positions_are_read_in_turn(
    tmux_value: Option<Seq<char>>,
    configured: Option<SidebarPosition>,
    unset: SidebarPosition,
)
    ensures
        ({
            let position = position_read(tmux_value, configured, unset);
            let top = tmux_value is Some && crate::text::trimmed(tmux_value->0) == "top"@;
            let left = tmux_value is Some && crate::text::trimmed(tmux_value->0) == "left"@;
            &&& top ==> position == SidebarPosition::Top
            &&& left ==> position == SidebarPosition::Left
            &&& !top && !left && configured is Some ==> position == configured->0
            &&& !top && !left && configured is None ==> position == unset
        }),
{
    reveal_strlit("top");
    reveal_strlit("left");
    assert("top"@.len() != "left"@.len());
}

/// A socket is named by its instance: slashes and backslashes become dashes, every other character stays.
pub proof fn sockets_are_named_by_instance(instance_id: Seq<char>, i: int)
    requires
        0 <= i < instance_id.len(),
    ensures
        "workmux-sidebar-"@.is_prefix_of(socket_name(instance_id)),
        ".sock"@.is_suffix_of(socket_name(instance_id)),
        socket_name(instance_id).len() == instance_id.len() + 21,
        instance_id[i] == '/' || instance_id[i] == '\\' ==> socket_name(instance_id)[16 + i] == '-',
        instance_id[i] != '/' && instance_id[i] != '\\' ==> socket_name(instance_id)[16 + i]
            == instance_id[i],
{
    reveal_strlit("workmux-sidebar-");
    reveal_strlit(".sock");
    let name = socket_name(instance_id);
    assert(name.subrange(0, 16) =~= "workmux-sidebar-"@);
    assert(name.subrange(name.len() - 5, name.len() as int) =~= ".sock"@);
}

} // verus!
