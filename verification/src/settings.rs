//! The settings that are kept between sessions.
use crate::bookmarks::{config_below, config_dir_in};
use crate::sort_select::{SortKey, SortOrder};
use crate::unix_path::{joined, UnixPath};
use crate::user_dirs;
use vstd::prelude::*;
use vstd::string::*;
use vstd::utf8::*;

verus! {

/// The settings as they are stored.
#[derive(Clone, Copy, Debug)]
pub struct PersistedSettings {
    pub dark_theme: bool,
    /// 0 for the list, 1 for the gallery. Older versions stored 1 to 4 for grids
    /// of four sizes, and no size of the items beside.
    pub view_mode: u8,
    /// The size of the items, from 1 to 7.
    pub item_size: u8,
    pub show_hidden: bool,
    pub sort_key: u8,
    pub sort_order: u8,
    pub auto_refresh: bool,
    pub window_size: (u32, u32),
    pub sidebar_width: u32,
    /// The resolution of thumbnails, from 0 to 3.
    pub thumb_size: u8,
    pub icon_style: u8,
    pub col_size_visible: bool,
    pub col_modified_visible: bool,
    pub col_kind_visible: bool,
    /// The most memory that thumbnails may take, in MiB; 0 for no limit.
    pub thumb_mem_budget_mb: u32,
}

pub open spec fn defaults() -> PersistedSettings {
    PersistedSettings {
        dark_theme: true,
        view_mode: 0,
        item_size: 3,
        show_hidden: false,
        sort_key: 0,
        sort_order: 0,
        auto_refresh: false,
        window_size: (1100, 700),
        sidebar_width: 220,
        thumb_size: 2,
        icon_style: 0,
        col_size_visible: true,
        col_modified_visible: true,
        col_kind_visible: true,
        thumb_mem_budget_mb: 2048,
    }
}

impl Default for PersistedSettings {
    fn default() -> (r: Self)
        ensures
            r == defaults(),
    {
        PersistedSettings {
            dark_theme: true,
            view_mode: 0,
            item_size: 3,
            show_hidden: false,
            sort_key: 0,
            sort_order: 0,
            auto_refresh: false,
            window_size: (1100, 700),
            sidebar_width: 220,
            thumb_size: 2,
            icon_style: 0,
            col_size_visible: true,
            col_modified_visible: true,
            col_kind_visible: true,
            thumb_mem_budget_mb: 2048,
        }
    }
}

/// Where the settings are kept, below a configuration directory.
pub open spec fn settings_below(base: Seq<u8>) -> Seq<u8> {
    joined(config_below(base), encode_utf8("settings.toml"@))
}

/// Where the settings are kept, below a configuration directory.
pub fn settings_path_in(base: &UnixPath) -> (r: UnixPath)
    ensures
        r@ == settings_below(base@),
{
    config_dir_in(base).join("settings.toml")
}

/// Where the settings are kept.
pub fn settings_path() -> (r: Option<UnixPath>)
    ensures
        r matches Some(p) ==> exists|base: Seq<u8>| p@ == #[trigger] settings_below(base),
{
    match user_dirs::config_dir() {
        Some(base) => Some(settings_path_in(&base)),
        None => None,
    }
}

/// The settings to start with: those that were read, if they could be.
pub fn loaded(read: Option<PersistedSettings>) -> (r: PersistedSettings)
    ensures
        r == match read {
            Some(s) => s,
            None => defaults(),
        },
{
    match read {
        Some(s) => s,
        None => PersistedSettings::default(),
    }
}

/// How a listing is shown.
#[derive(Clone, Copy, Debug, PartialEq, Eq, Structural)]
pub enum ViewMode {
    List,
    Gallery,
}

/// How icons are drawn.
#[derive(Clone, Copy, Debug, PartialEq, Eq, Structural)]
pub enum IconStyle {
    Mono,
    Color,
}

/// The settings as the window has them. The width of the sidebar is in whole
/// pixels.
#[derive(Clone, Copy, Debug, PartialEq, Eq, Structural)]
pub struct Settings {
    pub dark_theme: bool,
    pub view_mode: ViewMode,
    pub item_size: i32,
    pub show_hidden: bool,
    pub sort_key: SortKey,
    pub sort_order: SortOrder,
    pub auto_refresh: bool,
    pub sidebar_width: u32,
    pub thumb_size: i32,
    pub icon_style: IconStyle,
    pub col_size_visible: bool,
    pub col_modified_visible: bool,
    pub col_kind_visible: bool,
    pub thumb_mem_budget_mb: i32,
}

/// A number brought into a range.
pub open spec fn clamped(v: int, low: int, high: int) -> int {
    if v < low {
        low
    } else if v > high {
        high
    } else {
        v
    }
}

fn clamp(v: i32, low: i32, high: i32) -> (r: i32)
    requires
        low <= high,
    ensures
        r == clamped(v as int, low as int, high as int),
{
    if v < low {
        low
    } else if v > high {
        high
    } else {
        v
    }
}

/// The size of the items after so many steps up or down, from 1 to 7.
pub fn cycle_item_size(current: i32, delta: i32) -> (r: i32)
    requires
        i32::MIN <= current + delta <= i32::MAX,
    ensures
        r == clamped(current + delta, 1, 7),
{
    clamp(current + delta, 1, 7)
}

/// The view and size of the items that stored numbers stand for.
pub open spec fn migrated(mode: u8, size: u8) -> (ViewMode, int) {
    if mode == 0 {
        (ViewMode::List, clamped(size as int, 1, 7))
    } else if mode == 2 {
        (ViewMode::Gallery, 3)
    } else if mode == 3 {
        (ViewMode::Gallery, 5)
    } else if mode == 4 {
        (ViewMode::Gallery, 7)
    } else {
        (ViewMode::Gallery, clamped(size as int, 1, 7))
    }
}

/// The view and size of the items that stored numbers stand for. Older versions
/// stored the size of the grid as a view of its own.
pub fn migrate_view_mode(mode: u8, size: u8) -> (r: (ViewMode, i32))
    ensures
        r.0 == migrated(mode, size).0,
        r.1 == migrated(mode, size).1,
{
    if mode == 0 {
        (ViewMode::List, clamp(size as i32, 1, 7))
    } else if mode == 2 {
        (ViewMode::Gallery, 3)
    } else if mode == 3 {
        (ViewMode::Gallery, 5)
    } else if mode == 4 {
        (ViewMode::Gallery, 7)
    } else {
        (ViewMode::Gallery, clamp(size as i32, 1, 7))
    }
}

/// The size of the items to go with a stored view: the stored one, else that of
/// the grid of an older version, else the default.
pub open spec fn size_beside(mode: u8, size: Option<u8>) -> u8 {
    match size {
        Some(s) => s,
        None => if mode == 1 {
            2
        } else if mode == 2 {
            3
        } else if mode == 3 {
            5
        } else if mode == 4 {
            7
        } else {
            3
        },
    }
}

/// The size of the items to go with a stored view. A file without one is of an
/// older version, which stored the size of the grid as a view of its own.
pub fn item_size_beside(mode: u8, size: Option<u8>) -> (r: u8)
    ensures
        r == size_beside(mode, size),
{
    match size {
        Some(s) => s,
        None => if mode == 1 {
            2
        } else if mode == 2 {
            3
        } else if mode == 3 {
            5
        } else if mode == 4 {
            7
        } else {
            3
        },
    }
}

pub open spec fn view_mode_code(v: ViewMode) -> u8 {
    match v {
        ViewMode::List => 0,
        ViewMode::Gallery => 1,
    }
}

pub fn view_mode_to_u8(v: ViewMode) -> (r: u8)
    ensures
        r == view_mode_code(v),
{
    match v {
        ViewMode::List => 0,
        ViewMode::Gallery => 1,
    }
}

pub open spec fn sort_key_of(v: u8) -> SortKey {
    if v == 1 {
        SortKey::Size
    } else if v == 2 {
        SortKey::Mtime
    } else if v == 3 {
        SortKey::Kind
    } else {
        SortKey::Name
    }
}

pub fn sort_key_from_u8(v: u8) -> (r: SortKey)
    ensures
        r == sort_key_of(v),
{
    if v == 1 {
        SortKey::Size
    } else if v == 2 {
        SortKey::Mtime
    } else if v == 3 {
        SortKey::Kind
    } else {
        SortKey::Name
    }
}

pub open spec fn sort_key_code(v: SortKey) -> u8 {
    match v {
        SortKey::Name => 0,
        SortKey::Size => 1,
        SortKey::Mtime => 2,
        SortKey::Kind => 3,
    }
}

pub fn sort_key_to_u8(v: SortKey) -> (r: u8)
    ensures
        r == sort_key_code(v),
{
    match v {
        SortKey::Name => 0,
        SortKey::Size => 1,
        SortKey::Mtime => 2,
        SortKey::Kind => 3,
    }
}

pub open spec fn icon_style_of(v: u8) -> IconStyle {
    if v == 1 {
        IconStyle::Color
    } else {
        IconStyle::Mono
    }
}

pub fn icon_style_from_u8(v: u8) -> (r: IconStyle)
    ensures
        r == icon_style_of(v),
{
    if v == 1 {
        IconStyle::Color
    } else {
        IconStyle::Mono
    }
}

pub open spec fn icon_style_code(v: IconStyle) -> u8 {
    match v {
        IconStyle::Mono => 0,
        IconStyle::Color => 1,
    }
}

pub fn icon_style_to_u8(v: IconStyle) -> (r: u8)
    ensures
        r == icon_style_code(v),
{
    match v {
        IconStyle::Mono => 0,
        IconStyle::Color => 1,
    }
}

pub open spec fn sort_order_of(v: u8) -> SortOrder {
    if v == 1 {
        SortOrder::Descending
    } else {
        SortOrder::Ascending
    }
}

pub fn sort_order_from_u8(v: u8) -> (r: SortOrder)
    ensures
        r == sort_order_of(v),
{
    if v == 1 {
        SortOrder::Descending
    } else {
        SortOrder::Ascending
    }
}

pub open spec fn sort_order_code(v: SortOrder) -> u8 {
    match v {
        SortOrder::Ascending => 0,
        SortOrder::Descending => 1,
    }
}

pub fn sort_order_to_u8(v: SortOrder) -> (r: u8)
    ensures
        r == sort_order_code(v),
{
    match v {
        SortOrder::Ascending => 0,
        SortOrder::Descending => 1,
    }
}

/// The settings that the window gets from stored ones.
pub open spec fn applied(p: PersistedSettings) -> Settings {
    let (mode, size) = migrated(p.view_mode, p.item_size);
    Settings {
        dark_theme: p.dark_theme,
        view_mode: mode,
        item_size: size as i32,
        show_hidden: p.show_hidden,
        sort_key: sort_key_of(p.sort_key),
        sort_order: sort_order_of(p.sort_order),
        auto_refresh: p.auto_refresh,
        sidebar_width: p.sidebar_width,
        thumb_size: clamped(p.thumb_size as int, 0, 3) as i32,
        icon_style: icon_style_of(p.icon_style),
        col_size_visible: p.col_size_visible,
        col_modified_visible: p.col_modified_visible,
        col_kind_visible: p.col_kind_visible,
        thumb_mem_budget_mb: crate::calendar::wrap_i32(p.thumb_mem_budget_mb as int) as i32,
    }
}

fn signed(n: u32) -> (r: i32)
    ensures
        r == crate::calendar::wrap_i32(n as int),
{
    if n < 0x8000_0000 {
        n as i32
    } else {
        (n as i64 - 0x1_0000_0000) as i32
    }
}

/// The settings that the window gets from stored ones.
pub fn apply_persisted(p: &PersistedSettings) -> (r: Settings)
    ensures
        r == applied(*p),
{
    let (mode, size) = migrate_view_mode(p.view_mode, p.item_size);
    Settings {
        dark_theme: p.dark_theme,
        view_mode: mode,
        item_size: size,
        show_hidden: p.show_hidden,
        sort_key: sort_key_from_u8(p.sort_key),
        sort_order: sort_order_from_u8(p.sort_order),
        auto_refresh: p.auto_refresh,
        sidebar_width: p.sidebar_width,
        thumb_size: clamp(p.thumb_size as i32, 0, 3),
        icon_style: icon_style_from_u8(p.icon_style),
        col_size_visible: p.col_size_visible,
        col_modified_visible: p.col_modified_visible,
        col_kind_visible: p.col_kind_visible,
        thumb_mem_budget_mb: signed(p.thumb_mem_budget_mb),
    }
}

/// The settings of the window as they are stored.
pub open spec fn stored(s: Settings, window_size: (u32, u32)) -> PersistedSettings {
    PersistedSettings {
        dark_theme: s.dark_theme,
        view_mode: view_mode_code(s.view_mode),
        item_size: clamped(s.item_size as int, 1, 7) as u8,
        show_hidden: s.show_hidden,
        sort_key: sort_key_code(s.sort_key),
        sort_order: sort_order_code(s.sort_order),
        auto_refresh: s.auto_refresh,
        window_size,
        sidebar_width: s.sidebar_width,
        thumb_size: clamped(s.thumb_size as int, 0, 3) as u8,
        icon_style: icon_style_code(s.icon_style),
        col_size_visible: s.col_size_visible,
        col_modified_visible: s.col_modified_visible,
        col_kind_visible: s.col_kind_visible,
        thumb_mem_budget_mb: if s.thumb_mem_budget_mb < 0 {
            0
        } else {
            s.thumb_mem_budget_mb as u32
        },
    }
}

/// The settings of the window as they are stored.
pub fn snapshot(s: &Settings, window_size: (u32, u32)) -> (r: PersistedSettings)
    ensures
        r == stored(*s, window_size),
{
    PersistedSettings {
        dark_theme: s.dark_theme,
        view_mode: view_mode_to_u8(s.view_mode),
        item_size: clamp(s.item_size, 1, 7) as u8,
        show_hidden: s.show_hidden,
        sort_key: sort_key_to_u8(s.sort_key),
        sort_order: sort_order_to_u8(s.sort_order),
        auto_refresh: s.auto_refresh,
        window_size,
        sidebar_width: s.sidebar_width,
        thumb_size: clamp(s.thumb_size, 0, 3) as u8,
        icon_style: icon_style_to_u8(s.icon_style),
        col_size_visible: s.col_size_visible,
        col_modified_visible: s.col_modified_visible,
        col_kind_visible: s.col_kind_visible,
        thumb_mem_budget_mb: if s.thumb_mem_budget_mb < 0 {
            0
        } else {
            s.thumb_mem_budget_mb as u32
        },
    }
}

/// Whether two stored settings are the same but for the size of the window.
pub fn same(a: &PersistedSettings, b: &PersistedSettings) -> (r: bool)
    ensures
        r == (*a == (PersistedSettings { window_size: a.window_size, ..*b })),
{
    a.dark_theme == b.dark_theme && a.view_mode == b.view_mode && a.item_size == b.item_size
        && a.show_hidden == b.show_hidden && a.sort_key == b.sort_key && a.sort_order
        == b.sort_order && a.auto_refresh == b.auto_refresh && a.sidebar_width == b.sidebar_width
        && a.thumb_size == b.thumb_size && a.icon_style == b.icon_style && a.col_size_visible
        == b.col_size_visible && a.col_modified_visible == b.col_modified_visible
        && a.col_kind_visible == b.col_kind_visible && a.thumb_mem_budget_mb
        == b.thumb_mem_budget_mb
}

/// Saves the settings when they change. Holds what was saved last.
pub struct Autosave {
    pub last: PersistedSettings,
}

impl Autosave {
    pub fn new(s: &Settings) -> (r: Self)
        ensures
            r.last == stored(*s, (1100, 700)),
    {
        Autosave { last: snapshot(s, (1100, 700)) }
    }

    /// Looks at the settings of the window. Returns what is to be saved, if
    /// something changed.
    pub fn tick(&mut self, s: &Settings) -> (r: Option<PersistedSettings>)
        ensures
            final(self).last == stored(*s, old(self).last.window_size),
            r == if final(self).last == old(self).last {
                None
            } else {
                Some(final(self).last)
            },
    {
        let current = snapshot(s, self.last.window_size);
        if same(&self.last, &current) {
            None
        } else {
            self.last = current;
            Some(current)
        }
    }
}

/// Whether a window's settings are in their ranges.
pub open spec fn in_range(s: Settings) -> bool {
    &&& 1 <= s.item_size <= 7
    &&& 0 <= s.thumb_size <= 3
    &&& s.thumb_mem_budget_mb >= 0
}

/// What was saved is there again in the next session: the window gets the
/// settings that it had.
pub proof fn settings_survive_a_restart(s: Settings, window_size: (u32, u32))
    requires
        in_range(s),
    ensures
        applied(stored(s, window_size)) == s,
        ({
            let p = stored(s, window_size);
            size_beside(p.view_mode, Some(p.item_size)) == p.item_size
        }),
{
}

/// The four grids of older versions, stored without a size of the items, become
/// the gallery in four sizes.
pub proof fn old_grids_become_the_gallery(mode: u8)
    requires
        1 <= mode <= 4,
    ensures
        migrated(mode, size_beside(mode, None)) == (ViewMode::Gallery, if mode == 1 {
            2int
        } else if mode == 2 {
            3
        } else if mode == 3 {
            5
        } else {
            7
        }),
{
}

/// Whatever is stored, the window's settings are in their ranges, but for a
/// limit on memory beyond what the window can show.
pub proof fn applied_settings_are_in_range(p: PersistedSettings)
    requires
        p.thumb_mem_budget_mb <= i32::MAX,
    ensures
        in_range(applied(p)),
{
}

} // verus!
