//! The state of the switcher's window besides its textures: the status line,
//! the hotkey being rebound, the icons that can be given to a character and
//! the mini mode, with the rules by which the window's controls change it.
use vstd::prelude::*;
use vstd::string::*;
use crate::actions::GameAction;
use crate::icon::{icon_file_pixels, rgba8_image_as, rgba_fits};
use crate::state::AppState;
use crate::text::{lowercase, sort_texts, texts, texts_sorted, to_lowercase};
use crate::win_api::{ScannedWindow, scan_open_windows, scanned_views, synced_windows};

verus! {

/// What an image file of the icons folder is for: one of the window's own
/// buttons, or an icon that can be given to a character.
#[derive(Clone, Copy, Debug, PartialEq, Eq, Structural)]
pub enum IconRole {
    Drag,
    Launch,
    Restore,
    Rotate,
    Delete,
    Character,
}

/// The role of the icon file whose name without extension is `stem`.
pub open spec fn icon_role_of(stem: Seq<char>) -> IconRole {
    if stem == "drag"@ {
        IconRole::Drag
    } else if stem == "launch"@ {
        IconRole::Launch
    } else if stem == "restore"@ {
        IconRole::Restore
    } else if stem == "rotate"@ {
        IconRole::Rotate
    } else if stem == "delete"@ {
        IconRole::Delete
    } else {
        IconRole::Character
    }
}

/// The role of the icon file whose name without extension is `stem`.
pub fn icon_role(stem: &String) -> (r: IconRole)
    ensures
        r == icon_role_of(stem@),
{
    if *stem == String::from_str("drag") {
        IconRole::Drag
    } else if *stem == String::from_str("launch") {
        IconRole::Launch
    } else if *stem == String::from_str("restore") {
        IconRole::Restore
    } else if *stem == String::from_str("rotate") {
        IconRole::Rotate
    } else if *stem == String::from_str("delete") {
        IconRole::Delete
    } else {
        IconRole::Character
    }
}

/// A file extension that the icons folder takes: "png", "jpg" or "jpeg", in
/// any case.
pub open spec fn is_image_extension(ext: Seq<char>) -> bool {
    let l = lowercase(ext);
    l == "png"@ || l == "jpg"@ || l == "jpeg"@
}

/// Law: the extension test does not mind case: two extensions with the same
/// lower-case form are both taken or both refused, and an extension is taken
/// exactly when its lower-case form is "png", "jpg" or "jpeg".
pub proof fn law_image_extension_ignores_case(e1: Seq<char>, e2: Seq<char>)
    ensures
        lowercase(e1) == lowercase(e2) ==> is_image_extension(e1) == is_image_extension(e2),
        is_image_extension(e1) <==> (lowercase(e1) == seq!['p', 'n', 'g'] || lowercase(e1) == seq!['j', 'p', 'g']
            || lowercase(e1) == seq!['j', 'p', 'e', 'g']),
{
    reveal_strlit("png");
    reveal_strlit("jpg");
    reveal_strlit("jpeg");
    assert("png"@ =~= seq!['p', 'n', 'g']);
    assert("jpg"@ =~= seq!['j', 'p', 'g']);
    assert("jpeg"@ =~= seq!['j', 'p', 'e', 'g']);
}

/// Whether a file with extension `ext` is loaded as an icon.
pub fn is_icon_extension(ext: &str) -> (r: bool)
    ensures
        r == is_image_extension(ext@),
{
    let l = to_lowercase(ext);
    l == String::from_str("png") || l == String::from_str("jpg") || l == String::from_str("jpeg")
}

/// One entry of the icons folder as the program reads it: the name without
/// extension, whether it is a file, its extension where it has one that is
/// valid Unicode, and the file's bytes where they were read.
pub struct IconEntry {
    pub stem: String,
    pub is_file: bool,
    pub extension: Option<String>,
    pub bytes: Option<Vec<u8>>,
}

/// An image of the icons folder, decoded: its name, its role and its RGBA
/// pixels with their width and height.
pub struct LoadedIcon {
    pub stem: String,
    pub role: IconRole,
    pub rgba: Vec<u8>,
    pub width: u32,
    pub height: u32,
}

/// An entry of the icons folder is loaded as an image: a file whose
/// extension is one of the image extensions.
pub open spec fn is_icon_candidate_of(is_file: bool, extension: Option<String>) -> bool {
    is_file && match extension {
        Some(e) => is_image_extension(e@),
        None => false,
    }
}

/// Whether an entry of the icons folder is loaded as an image.
pub fn is_icon_candidate(is_file: bool, extension: &Option<String>) -> (r: bool)
    ensures
        r == is_icon_candidate_of(is_file, *extension),
{
    if !is_file {
        return false;
    }
    match extension {
        Some(e) => is_icon_extension(e.as_str()),
        None => false,
    }
}

/// The pixels that an entry of the icons folder gives: those of its bytes
/// decoded in the format its extension names, where it is an image file and
/// its bytes were read and decode.
pub open spec fn entry_pixels(e: IconEntry) -> Option<(Seq<u8>, u32, u32)> {
    if is_icon_candidate_of(e.is_file, e.extension) {
        match e.bytes {
            Some(b) => rgba8_image_as(b@, e.extension->0@),
            None => None,
        }
    } else {
        None
    }
}

/// What a loaded icon holds, as plain values.
pub open spec fn loaded_view(l: LoadedIcon) -> (Seq<char>, IconRole, Seq<u8>, u32, u32) {
    (l.stem@, l.role, l.rgba@, l.width, l.height)
}

/// The icons that the entries give, in their order: each entry whose pixels
/// decode, with its name, its role and its pixels.
pub open spec fn loaded_icons_of(entries: Seq<IconEntry>) -> Seq<(Seq<char>, IconRole, Seq<u8>, u32, u32)>
    decreases entries.len(),
{
    if entries.len() == 0 {
        Seq::empty()
    } else {
        let rest = loaded_icons_of(entries.drop_last());
        let e = entries.last();
        match entry_pixels(e) {
            Some(p) => rest.push((e.stem@, icon_role_of(e.stem@), p.0, p.1, p.2)),
            None => rest,
        }
    }
}

/// The names of the character icons among the entries, in their order: the
/// entries whose pixels decode and that are not one of the window's buttons.
pub open spec fn character_icon_names(entries: Seq<IconEntry>) -> Seq<Seq<char>>
    decreases entries.len(),
{
    if entries.len() == 0 {
        Seq::empty()
    } else {
        let rest = character_icon_names(entries.drop_last());
        let e = entries.last();
        if entry_pixels(e) is Some && icon_role_of(e.stem@) == IconRole::Character {
            rest.push(e.stem@)
        } else {
            rest
        }
    }
}

/// Law: loading the icons twice from the same folder gives the same list of
/// names: any two lists that `load_icons` may leave for the same entries
/// are equal, and nothing of an earlier load stays.
pub proof fn law_icon_loading_is_repeatable(first: Seq<String>, second: Seq<String>, files: Seq<IconEntry>)
    requires
        texts_sorted(texts(first)),
        texts(first).to_multiset() == character_icon_names(files).to_multiset(),
        texts_sorted(texts(second)),
        texts(second).to_multiset() == character_icon_names(files).to_multiset(),
    ensures
        texts(first) == texts(second),
{
    crate::text::law_sorted_texts_fixed_by_items(texts(first), texts(second));
}

/// What a frame of the window keeps true: no window is listed twice, and the
/// binding that waits for a key, if any, is one of the bindings.
pub open spec fn frame_consistent(
    rebinding_index: Option<usize>,
    windows: Seq<crate::state::DofusWindow>,
    bindings_len: nat,
) -> bool {
    &&& crate::state::handles_unique(crate::state::handles(windows))
    &&& rebinding_index matches Some(i) ==> i < bindings_len
}

/// Law: each change that a frame of the window can make keeps it consistent
/// and keeps the number of bindings: choosing an icon (the handles stay),
/// dragging a window, hiding one, starting to rebind one of the bindings and
/// completing a rebinding.
pub proof fn law_frame_changes_keep_consistency(
    rebinding_index: Option<usize>,
    windows: Seq<crate::state::DofusWindow>,
    with_icon: Seq<crate::state::DofusWindow>,
    bindings_len: nat,
    source: int,
    target: int,
    idx: int,
    start: usize,
)
    requires
        frame_consistent(rebinding_index, windows, bindings_len),
    ensures
        crate::state::handles(with_icon) == crate::state::handles(windows)
            ==> frame_consistent(rebinding_index, with_icon, bindings_len),
        0 <= source < windows.len() && 0 <= target < windows.len()
            ==> frame_consistent(rebinding_index, crate::state::moved(windows, source, target), bindings_len),
        0 <= idx < windows.len() ==> frame_consistent(rebinding_index, windows.remove(idx), bindings_len),
        start < bindings_len ==> frame_consistent(Some(start), windows, bindings_len),
        frame_consistent(None, windows, bindings_len),
{
    if 0 <= source < windows.len() && 0 <= target < windows.len() {
        crate::state::law_move_keeps_windows_distinct(windows, source, target, 0);
    }
    if 0 <= idx < windows.len() {
        crate::state::law_remove_keeps_windows_distinct(windows, idx, 0);
    }
}

/// The label shown before the key of a binding.
pub fn binding_label(action: GameAction) -> (r: &'static str)
    ensures
        r@ == (match action {
            GameAction::NextWindow => "Sig:"@,
            GameAction::PrevWindow => "Ant:"@,
        }),
{
    match action {
        GameAction::NextWindow => "Sig:",
        GameAction::PrevWindow => "Ant:",
    }
}

/// The switcher's window state, textures aside.
pub struct DofusApp {
    pub status_msg: String,
    pub rebinding_index: Option<usize>,
    pub available_icon_names: Vec<String>,
    pub mini_mode: bool,
    pub vertical_mini: bool,
}

impl Default for DofusApp {
    /// At start: status "Listo.", no hotkey being rebound, no icon loaded,
    /// the full window, and the mini mode laid out vertically.
    fn default() -> (r: DofusApp)
        ensures
            r.status_msg@ == "Listo."@,
            r.rebinding_index is None,
            r.available_icon_names@.len() == 0,
            !r.mini_mode,
            r.vertical_mini,
    {
        DofusApp {
            status_msg: String::from_str("Listo."),
            rebinding_index: None,
            available_icon_names: Vec::new(),
            mini_mode: false,
            vertical_mini: true,
        }
    }
}

impl DofusApp {
    /// Takes the names of the character icons that were loaded, in
    /// ascending order.
    pub fn set_icon_names(&mut self, names: &Vec<String>)
        ensures
            texts_sorted(texts(final(self).available_icon_names@)),
            texts(final(self).available_icon_names@).to_multiset() == texts(names@).to_multiset(),
            final(self).status_msg == old(self).status_msg,
            final(self).rebinding_index == old(self).rebinding_index,
            final(self).mini_mode == old(self).mini_mode,
            final(self).vertical_mini == old(self).vertical_mini,
    {
        self.available_icon_names = sort_texts(names);
    }

    /// Loads the icons folder, read entry by entry: decodes each image file
    /// in the format its extension names, returns the decoded icons in the
    /// order of the entries, and takes the names of the character icons, in
    /// ascending order, as the icons that characters can be given.
    pub fn load_icons(&mut self, entries: &Vec<IconEntry>) -> (icons: Vec<LoadedIcon>)
        ensures
            icons@.map_values(|l: LoadedIcon| loaded_view(l)) == loaded_icons_of(entries@),
            forall|k: int| 0 <= k < icons@.len() ==> rgba_fits(#[trigger] icons@[k].rgba@, icons@[k].width, icons@[k].height),
            texts_sorted(texts(final(self).available_icon_names@)),
            texts(final(self).available_icon_names@).to_multiset() == character_icon_names(entries@).to_multiset(),
            final(self).status_msg == old(self).status_msg,
            final(self).rebinding_index == old(self).rebinding_index,
            final(self).mini_mode == old(self).mini_mode,
            final(self).vertical_mini == old(self).vertical_mini,
    {
        let mut icons: Vec<LoadedIcon> = Vec::new();
        let mut names: Vec<String> = Vec::new();
        let n = entries.len();
        let mut i: usize = 0;
        while i < n
            invariant
                n == entries@.len(),
                i <= n,
                icons@.map_values(|l: LoadedIcon| loaded_view(l)) == loaded_icons_of(entries@.take(i as int)),
                forall|k: int| 0 <= k < icons@.len() ==> rgba_fits(#[trigger] icons@[k].rgba@, icons@[k].width, icons@[k].height),
                texts(names@) == character_icon_names(entries@.take(i as int)),
            decreases n - i,
        {
            assert(entries@.take(i + 1).drop_last() =~= entries@.take(i as int));
            let e = &entries[i];
            assert(e == entries@.take(i + 1).last());
            if is_icon_candidate(e.is_file, &e.extension) {
                match (&e.extension, &e.bytes) {
                    (Some(ext), Some(b)) => {
                        match icon_file_pixels(b.as_slice(), ext.as_str()) {
                            Some((rgba, width, height)) => {
                                let role = icon_role(&e.stem);
                                let ghost before = icons@;
                                icons.push(LoadedIcon { stem: e.stem.clone(), role, rgba, width, height });
                                assert(icons@.map_values(|l: LoadedIcon| loaded_view(l)) =~= before.map_values(
                                    |l: LoadedIcon| loaded_view(l),
                                ).push(loaded_view(icons@[icons@.len() - 1])));
                                if role == IconRole::Character {
                                    let ghost nbefore = names@;
                                    names.push(e.stem.clone());
                                    assert(texts(names@) =~= texts(nbefore).push(e.stem@));
                                }
                            },
                            None => {},
                        }
                    },
                    _ => {},
                }
            }
            i = i + 1;
        }
        assert(entries@.take(n as int) =~= entries@);
        self.set_icon_names(&names);
        icons
    }

    /// The icon to draw for a window whose icon is `icon`: that icon where it
    /// was loaded, else "default" where that one was, else none.
    pub fn icon_texture_key(&self, icon: &String) -> (r: Option<String>)
        ensures
            match r {
                Some(k) => (if texts(self.available_icon_names@).contains(icon@) {
                    k@ == icon@
                } else {
                    texts(self.available_icon_names@).contains("default"@) && k@ == "default"@
                }),
                None => !texts(self.available_icon_names@).contains(icon@)
                    && !texts(self.available_icon_names@).contains("default"@),
            },
    {
        if self.has_icon(icon) {
            Some(icon.clone())
        } else {
            let d = String::from_str("default");
            if self.has_icon(&d) {
                Some(d)
            } else {
                None
            }
        }
    }

    /// The text of the button that shows the key of binding `index`: "..."
    /// while that binding is being rebound, else the key's name in brackets.
    pub fn binding_button_text(&self, index: usize, key_name: &String) -> (r: String)
        ensures
            r@ == (if self.rebinding_index == Some(index) { "..."@ } else { "["@ + key_name@ + "]"@ }),
    {
        if self.rebinding_index == Some(index) {
            String::from_str("...")
        } else {
            let mut r = String::from_str("[");
            r.append(key_name.as_str());
            r.append("]");
            r
        }
    }

    /// A click on the key button of binding `index`: while no binding is
    /// being rebound (the buttons are disabled otherwise), that binding
    /// starts waiting for a key and the status line says so. Returns whether
    /// it started.
    pub fn begin_rebinding(&mut self, index: usize, action: GameAction) -> (started: bool)
        ensures
            started == (old(self).rebinding_index is None),
            started ==> final(self).rebinding_index == Some(index),
            started ==> final(self).status_msg@ == "Configurando '"@ + (match action {
                GameAction::NextWindow => "Sig:"@,
                GameAction::PrevWindow => "Ant:"@,
            }) + "'..."@,
            !started ==> final(self).rebinding_index == old(self).rebinding_index
                && final(self).status_msg == old(self).status_msg,
            final(self).available_icon_names == old(self).available_icon_names,
            final(self).mini_mode == old(self).mini_mode,
            final(self).vertical_mini == old(self).vertical_mini,
    {
        if self.rebinding_index.is_none() {
            self.rebinding_index = Some(index);
            let mut msg = String::from_str("Configurando '");
            msg.append(binding_label(action));
            msg.append("'...");
            self.status_msg = msg;
            true
        } else {
            false
        }
    }

    /// A key was pressed while a binding waits for one: the binding takes the
    /// key `new_key`, named `key_name`, the hotkeys are to be registered
    /// anew, the status line shows the new key and no binding waits any
    /// more. Where no binding waits, nothing changes.
    pub fn complete_rebinding(&mut self, state: &mut AppState, new_key: u32, key_name: String)
        requires
            old(self).rebinding_index matches Some(i) ==> i < old(state).bindings@.len(),
        ensures
            match old(self).rebinding_index {
                Some(i) => {
                    &&& final(state).bindings@.len() == old(state).bindings@.len()
                    &&& final(state).bindings@[i as int].action == old(state).bindings@[i as int].action
                    &&& final(state).bindings@[i as int].vk_code == new_key
                    &&& final(state).bindings@[i as int].name@ == key_name@
                    &&& forall|k: int| 0 <= k < old(state).bindings@.len() && k != i ==>
                        #[trigger] final(state).bindings@[k] == old(state).bindings@[k]
                    &&& final(state).keys_need_update
                    &&& final(self).status_msg@ == "Tecla actualizada: "@ + key_name@
                    &&& final(self).rebinding_index is None
                },
                None => {
                    &&& final(state).bindings == old(state).bindings
                    &&& final(state).keys_need_update == old(state).keys_need_update
                    &&& final(self).status_msg == old(self).status_msg
                    &&& final(self).rebinding_index is None
                },
            },
            final(state).windows == old(state).windows,
            final(state).config == old(state).config,
            final(self).available_icon_names == old(self).available_icon_names,
            final(self).mini_mode == old(self).mini_mode,
            final(self).vertical_mini == old(self).vertical_mini,
    {
        match self.rebinding_index {
            Some(i) => {
                let mut msg = String::from_str("Tecla actualizada: ");
                msg.append(key_name.as_str());
                state.rebind(i, new_key, key_name);
                self.status_msg = msg;
                self.rebinding_index = None;
            },
            None => {},
        }
    }

    /// The character of window `idx` is given the icon `icon`, which is
    /// remembered for its name; the status line says so.
    pub fn choose_icon(&mut self, state: &mut AppState, idx: usize, icon: String)
        requires
            idx < old(state).windows@.len(),
        ensures
            crate::state::models(final(state).windows@) == crate::state::models(old(state).windows@).update(
                idx as int,
                crate::state::WindowModel { icon: icon@, ..old(state).windows@[idx as int]@ },
            ),
            final(state).config.icons() == old(state).config.icons().insert(
                old(state).windows@[idx as int].name@,
                icon@,
            ),
            final(state).bindings == old(state).bindings,
            final(state).keys_need_update == old(state).keys_need_update,
            final(self).status_msg@ == "Icono guardado."@,
            final(self).rebinding_index == old(self).rebinding_index,
            final(self).available_icon_names == old(self).available_icon_names,
            final(self).mini_mode == old(self).mini_mode,
            final(self).vertical_mini == old(self).vertical_mini,
    {
        state.assign_icon(idx, icon);
        self.status_msg = String::from_str("Icono guardado.");
    }

    /// The window at `idx` is taken off the list; the status line says so.
    pub fn hide_window(&mut self, state: &mut AppState, idx: usize)
        requires
            idx < old(state).windows@.len(),
        ensures
            final(state).windows@ == old(state).windows@.remove(idx as int),
            final(state).bindings == old(state).bindings,
            final(state).keys_need_update == old(state).keys_need_update,
            final(state).config == old(state).config,
            final(self).status_msg@ == "Ventana eliminada."@,
            final(self).rebinding_index == old(self).rebinding_index,
            final(self).available_icon_names == old(self).available_icon_names,
            final(self).mini_mode == old(self).mini_mode,
            final(self).vertical_mini == old(self).vertical_mini,
    {
        state.remove_window(idx);
        self.status_msg = String::from_str("Ventana eliminada.");
    }

    /// The "Sincronizar" button: the list follows the windows found open and
    /// the status line says so.
    pub fn synchronize(&mut self, state: &mut AppState, found: &Vec<ScannedWindow>)
        ensures
            crate::state::models(final(state).windows@) == synced_windows(
                crate::state::models(old(state).windows@),
                scanned_views(found@),
                old(state).config.icons(),
            ),
            final(state).bindings == old(state).bindings,
            final(state).keys_need_update == old(state).keys_need_update,
            final(state).config == old(state).config,
            final(self).status_msg@ == "Sincronizado."@,
            final(self).rebinding_index == old(self).rebinding_index,
            final(self).available_icon_names == old(self).available_icon_names,
            final(self).mini_mode == old(self).mini_mode,
            final(self).vertical_mini == old(self).vertical_mini,
    {
        scan_open_windows(state, found);
        self.status_msg = String::from_str("Sincronizado.");
    }

    /// The "Modo Mini" button: the window turns into the small overlay.
    pub fn enter_mini_mode(&mut self)
        ensures
            final(self).mini_mode,
            final(self).vertical_mini == old(self).vertical_mini,
            final(self).status_msg == old(self).status_msg,
            final(self).rebinding_index == old(self).rebinding_index,
            final(self).available_icon_names == old(self).available_icon_names,
    {
        self.mini_mode = true;
    }

    /// The "Volver" button of the overlay: back to the full window.
    pub fn leave_mini_mode(&mut self)
        ensures
            !final(self).mini_mode,
            final(self).vertical_mini == old(self).vertical_mini,
            final(self).status_msg == old(self).status_msg,
            final(self).rebinding_index == old(self).rebinding_index,
            final(self).available_icon_names == old(self).available_icon_names,
    {
        self.mini_mode = false;
    }

    /// The "Rotar" button of the overlay: vertical becomes horizontal and the
    /// other way round.
    pub fn rotate_mini(&mut self)
        ensures
            final(self).vertical_mini == !old(self).vertical_mini,
            final(self).mini_mode == old(self).mini_mode,
            final(self).status_msg == old(self).status_msg,
            final(self).rebinding_index == old(self).rebinding_index,
            final(self).available_icon_names == old(self).available_icon_names,
    {
        self.vertical_mini = !self.vertical_mini;
    }

    fn has_icon(&self, name: &String) -> (r: bool)
        ensures
            r == texts(self.available_icon_names@).contains(name@),
    {
        let ghost t = texts(self.available_icon_names@);
        let mut i: usize = 0;
        while i < self.available_icon_names.len()
            invariant
                t == texts(self.available_icon_names@),
                i <= self.available_icon_names@.len(),
                forall|k: int| 0 <= k < i ==> t[k] != name@,
            decreases self.available_icon_names@.len() - i,
        {
            if self.available_icon_names[i] == *name {
                assert(t[i as int] == name@);
                return true;
            }
            i = i + 1;
        }
        false
    }
}

} // verus!
