//! Verified core of a window switcher for multi-account Dofus play: the
//! ordered list of game windows, the hotkeys that cycle through it, the
//! remembered icon of each character and the small text rules (window
//! titles, executable names, key names, icon files) the switcher lives by.
pub mod text;
pub mod state;
pub mod actions;
pub mod win_api;
pub mod gui;
pub mod icon;
