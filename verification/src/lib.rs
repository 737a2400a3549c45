//! The logic of a dual-pane file manager.

pub mod archive;
pub mod archive_laws;
pub mod bookmarks;
pub mod bulk_rename;
pub mod calendar;
pub mod clipboard;
pub mod clipboard_laws;
pub mod compress;
pub mod copy_children;
pub mod copy_disk;
pub mod copy_laws;
pub mod copy_order;
pub mod copy_progress;
pub mod copy_run;
pub mod copy_steps;
pub mod desktop;
pub mod desktop_laws;
pub mod device_laws;
pub mod devices;
pub mod disk_space;
pub mod file_actions;
pub mod file_laws;
pub mod file_ops;
pub mod format_laws;
pub mod format_util;
pub mod fs_atomic;
pub mod icon_map;
pub mod keep_both;
pub mod listing;
pub mod listing_laws;
pub mod local_fs;
pub mod media_meta;
pub mod mime;
pub mod mimeapps;
pub mod names;
pub mod navigation;
pub mod num_text;
pub mod open_with;
pub mod ordering;
pub mod path_laws;
pub mod picking;
pub mod places;
pub mod places_laws;
pub mod properties;
pub mod remote;
pub mod rename_laws;
pub mod search;
pub mod search_laws;
pub mod selection;
pub mod selection_laws;
pub mod settings;
pub mod sort_laws;
pub mod sort_select;
pub mod spawn;
pub mod startup;
pub mod state;
pub mod system_laws;
pub mod tabs;
pub mod text;
pub mod text_laws;
pub mod thumb_queue;
pub mod thumbnail_laws;
pub mod thumbnails;
pub mod trash_io;
pub mod types;
pub mod ui_watchdog;
pub mod uid_map;
pub mod undo;
pub mod undo_laws;
pub mod unix_path;
pub mod user_dirs;
pub mod watcher;
pub mod window_laws;
