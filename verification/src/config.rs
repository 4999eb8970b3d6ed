//! The settings that decide how the sidebar and the picker behave.

use vstd::prelude::*;

verus! {

/// The side of a tab on which its sidebar stands.
#[derive(Clone, Copy, Debug, PartialEq, Eq, Structural)]
pub enum SidebarPosition {
    Left,
    Right,
    Top,
    Bottom,
}

/// The settings of the sidebar.
#[derive(Clone, Debug, PartialEq, Eq)]
pub struct Sidebar {
    pub position: SidebarPosition,
    /// The program that is run as the editor.
    pub editor: String,
}

/// The settings of the sidebar, with their texts as characters.
pub struct SidebarView {
    pub position: SidebarPosition,
    pub editor: Seq<char>,
}

impl View for Sidebar {
    type V = SidebarView;

    open spec fn view(&self) -> SidebarView {
        SidebarView { position: self.position, editor: self.editor@ }
    }
}

impl Sidebar {
    /// A copy of these settings.
    pub fn copy(&self) -> (copy: Sidebar)
        ensures
            copy@ == self@,
    {
        Sidebar { position: self.position, editor: self.editor.clone() }
    }
}

/// The settings of the picker.
#[derive(Clone, Copy, Debug, PartialEq, Eq)]
pub struct Picker {
    /// How many lines of an agent's output to search for file paths.
    pub scan_lines: u32,
    /// How many files the picker shows.
    pub max_files: usize,
}

/// The settings that are read here.
#[derive(Clone, Debug, PartialEq, Eq)]
pub struct Config {
    pub sidebar: Sidebar,
    pub picker: Picker,
}

/// The settings, with their texts as characters.
pub struct ConfigView {
    pub sidebar: SidebarView,
    pub picker: Picker,
}

impl View for Config {
    type V = ConfigView;

    open spec fn view(&self) -> ConfigView {
        ConfigView { sidebar: self.sidebar@, picker: self.picker }
    }
}

impl Config {
    /// A copy of these settings.
    pub fn copy(&self) -> (copy: Config)
        ensures
            copy@ == self@,
    {
        Config { sidebar: self.sidebar.copy(), picker: self.picker }
    }
}

} // verus!
