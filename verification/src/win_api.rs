//! The decisions around the operating system's windows and keyboard: which
//! windows are game windows, how the list follows what is open, which key is
//! pressed and what a key is called.
use vstd::prelude::*;
use vstd::string::*;
use crate::state::{AppConfig, AppState, DofusWindow, WindowModel, models};
use crate::text::{
    chars_of, contains_text, decimal, decode_utf16_lossy, has_infix, last_path_segment, lowercase,
    path_file_name, push_decimal, split_title, title_class, title_name, to_lowercase, utf16_lossy,
};

verus! {

/// A window found open: its handle and its title.
pub struct ScannedWindow {
    pub hwnd: isize,
    pub title: String,
}

/// The handle and title text of each found window.
pub open spec fn scanned_views(found: Seq<ScannedWindow>) -> Seq<(isize, Seq<char>)> {
    found.map_values(|w: ScannedWindow| (w.hwnd, w.title@))
}

/// The handles of a list of window models.
pub open spec fn model_handles(ws: Seq<WindowModel>) -> Seq<isize> {
    ws.map_values(|w: WindowModel| w.hwnd)
}

/// The handles of a list of found windows.
pub open spec fn found_handles(found: Seq<(isize, Seq<char>)>) -> Seq<isize> {
    found.map_values(|f: (isize, Seq<char>)| f.0)
}

/// The icon a new window of character `name` gets: the one remembered for
/// the name, else "default".
pub open spec fn saved_icon(icons: Map<Seq<char>, Seq<char>>, name: Seq<char>) -> Seq<char> {
    if icons.contains_key(name) {
        icons[name]
    } else {
        "default"@
    }
}

/// The window that a newly found window with handle `hwnd` and title `title`
/// becomes.
pub open spec fn new_window_model(hwnd: isize, title: Seq<char>, icons: Map<Seq<char>, Seq<char>>) -> WindowModel {
    WindowModel {
        hwnd,
        original_title: title,
        name: title_name(title),
        class: title_class(title),
        icon: saved_icon(icons, title_name(title)),
    }
}

/// The listed windows that are still open, in their order.
pub open spec fn kept_windows(ws: Seq<WindowModel>, open: Seq<isize>) -> Seq<WindowModel>
    decreases ws.len(),
{
    if ws.len() == 0 {
        ws
    } else {
        let k = kept_windows(ws.drop_last(), open);
        if open.contains(ws.last().hwnd) {
            k.push(ws.last())
        } else {
            k
        }
    }
}

/// The list after the found windows that it lacks were added, in the order
/// in which they were found.
pub open spec fn add_found(ws: Seq<WindowModel>, found: Seq<(isize, Seq<char>)>, icons: Map<Seq<char>, Seq<char>>) -> Seq<WindowModel>
    decreases found.len(),
{
    if found.len() == 0 {
        ws
    } else {
        let w = add_found(ws, found.drop_last(), icons);
        if model_handles(w).contains(found.last().0) {
            w
        } else {
            w.push(new_window_model(found.last().0, found.last().1, icons))
        }
    }
}

/// The list after a scan that found `found` open: the windows that closed
/// leave it, the new ones join it at the end.
pub open spec fn synced_windows(ws: Seq<WindowModel>, found: Seq<(isize, Seq<char>)>, icons: Map<Seq<char>, Seq<char>>) -> Seq<WindowModel> {
    add_found(kept_windows(ws, found_handles(found)), found, icons)
}

/// A copy of a window.
fn copy_window(w: &DofusWindow) -> (r: DofusWindow)
    ensures
        r@ == w@,
{
    DofusWindow {
        hwnd: w.hwnd,
        original_title: w.original_title.clone(),
        name: w.name.clone(),
        class: w.class.clone(),
        icon: w.icon.clone(),
    }
}

fn found_contains(found: &Vec<ScannedWindow>, hwnd: isize) -> (r: bool)
    ensures
        r == found_handles(scanned_views(found@)).contains(hwnd),
{
    let ghost fh = found_handles(scanned_views(found@));
    let mut i: usize = 0;
    while i < found.len()
        invariant
            fh == found_handles(scanned_views(found@)),
            fh.len() == found@.len(),
            i <= found.len(),
            forall|k: int| 0 <= k < i ==> fh[k] != hwnd,
        decreases found.len() - i,
    {
        if found[i].hwnd == hwnd {
            assert(fh[i as int] == hwnd);
            return true;
        }
        i = i + 1;
    }
    false
}

fn listed_contains(windows: &Vec<DofusWindow>, hwnd: isize) -> (r: bool)
    ensures
        r == model_handles(models(windows@)).contains(hwnd),
{
    let ghost hs = model_handles(models(windows@));
    let mut i: usize = 0;
    while i < windows.len()
        invariant
            hs == model_handles(models(windows@)),
            hs.len() == windows@.len(),
            i <= windows.len(),
            forall|k: int| 0 <= k < i ==> hs[k] != hwnd,
        decreases windows.len() - i,
    {
        if windows[i].hwnd == hwnd {
            assert(hs[i as int] == hwnd);
            return true;
        }
        i = i + 1;
    }
    false
}

/// The window that a newly found window becomes: the title split into the
/// character's name and class, and the icon remembered for the name.
pub fn new_window(hwnd: isize, title: &String, config: &AppConfig) -> (r: DofusWindow)
    ensures
        r@ == new_window_model(hwnd, title@, config.icons()),
{
    let (name, class) = split_title(title.as_str());
    let icon = match config.icon_of(&name) {
        Some(icon) => icon,
        None => String::from_str("default"),
    };
    DofusWindow { hwnd, original_title: title.clone(), name, class, icon }
}

/// Brings the list of game windows in line with the windows found open:
/// the listed windows that were not found leave the list, the others keep
/// their order, and each found window that is not listed yet joins the end
/// of the list, in the order found, with its title split into the character's
/// name and class and with the icon remembered for that name.
pub fn scan_open_windows(state: &mut AppState, found: &Vec<ScannedWindow>)
    ensures
        models(final(state).windows@) == synced_windows(
            models(old(state).windows@),
            scanned_views(found@),
            old(state).config.icons(),
        ),
        final(state).bindings == old(state).bindings,
        final(state).keys_need_update == old(state).keys_need_update,
        final(state).config == old(state).config,
{
    let ghost fv = scanned_views(found@);
    let ghost fh = found_handles(fv);
    let ghost old_ms = models(state.windows@);
    let mut kept: Vec<DofusWindow> = Vec::new();
    let n = state.windows.len();
    let mut i: usize = 0;
    while i < n
        invariant
            n == state.windows@.len(),
            old_ms == models(state.windows@),
            fh == found_handles(scanned_views(found@)),
            i <= n,
            models(kept@) == kept_windows(old_ms.take(i as int), fh),
        decreases n - i,
    {
        assert(old_ms.take(i + 1).drop_last() =~= old_ms.take(i as int));
        if found_contains(found, state.windows[i].hwnd) {
            let w = copy_window(&state.windows[i]);
            let ghost before = kept@;
            kept.push(w);
            assert(models(kept@) =~= models(before).push(old_ms[i as int]));
        }
        i = i + 1;
    }
    assert(old_ms.take(n as int) =~= old_ms);
    let ghost base = models(kept@);
    let ghost icons = state.config.icons();
    let m = found.len();
    let mut j: usize = 0;
    assert(fv.take(0) =~= Seq::<(isize, Seq<char>)>::empty());
    while j < m
        invariant
            m == found@.len(),
            fv == scanned_views(found@),
            icons == state.config.icons(),
            j <= m,
            models(kept@) == add_found(base, fv.take(j as int), icons),
        decreases m - j,
    {
        assert(fv.take(j + 1).drop_last() =~= fv.take(j as int));
        if !listed_contains(&kept, found[j].hwnd) {
            let w = new_window(found[j].hwnd, &found[j].title, &state.config);
            let ghost before = kept@;
            kept.push(w);
            assert(models(kept@) =~= models(before).push(w@));
        }
        j = j + 1;
    }
    assert(fv.take(m as int) =~= fv);
    state.windows = kept;
}

proof fn lemma_push_contains(s: Seq<isize>, x: isize, h: isize)
    ensures
        s.push(x).contains(h) <==> (s.contains(h) || x == h),
{
    if s.contains(h) {
        let i = choose|i: int| 0 <= i < s.len() && s[i] == h;
        assert(s.push(x)[i] == h);
    }
    if x == h {
        assert(s.push(x)[s.len() as int] == h);
    }
    if s.push(x).contains(h) {
        let i = choose|i: int| 0 <= i < s.push(x).len() && s.push(x)[i] == h;
        if i < s.len() {
            assert(s[i] == h);
        }
    }
}

proof fn lemma_kept_handles(ws: Seq<WindowModel>, open: Seq<isize>, h: isize)
    ensures
        model_handles(kept_windows(ws, open)).contains(h) <==> (model_handles(ws).contains(h) && open.contains(h)),
    decreases ws.len(),
{
    if ws.len() > 0 {
        let k = kept_windows(ws.drop_last(), open);
        lemma_kept_handles(ws.drop_last(), open, h);
        assert(model_handles(ws) =~= model_handles(ws.drop_last()).push(ws.last().hwnd));
        assert(model_handles(k.push(ws.last())) =~= model_handles(k).push(ws.last().hwnd));
        lemma_push_contains(model_handles(ws.drop_last()), ws.last().hwnd, h);
        lemma_push_contains(model_handles(k), ws.last().hwnd, h);
    }
}

proof fn lemma_kept_all_open(ws: Seq<WindowModel>, open: Seq<isize>)
    requires
        forall|i: int| 0 <= i < ws.len() ==> open.contains(#[trigger] ws[i].hwnd),
    ensures
        kept_windows(ws, open) == ws,
    decreases ws.len(),
{
    if ws.len() > 0 {
        assert forall|i: int| 0 <= i < ws.drop_last().len() implies open.contains(#[trigger] ws.drop_last()[i].hwnd) by {
            assert(ws.drop_last()[i] == ws[i]);
        }
        lemma_kept_all_open(ws.drop_last(), open);
        assert(open.contains(ws[ws.len() - 1].hwnd));
        assert(ws.drop_last().push(ws.last()) =~= ws);
    }
}

proof fn lemma_kept_unique(ws: Seq<WindowModel>, open: Seq<isize>)
    requires
        crate::state::handles_unique(model_handles(ws)),
    ensures
        crate::state::handles_unique(model_handles(kept_windows(ws, open))),
    decreases ws.len(),
{
    if ws.len() > 0 {
        let d = ws.drop_last();
        assert(model_handles(d) =~= model_handles(ws).drop_last());
        lemma_kept_unique(d, open);
        let k = kept_windows(d, open);
        if open.contains(ws.last().hwnd) {
            lemma_kept_handles(d, open, ws.last().hwnd);
            assert(!model_handles(d).contains(ws.last().hwnd)) by {
                if model_handles(d).contains(ws.last().hwnd) {
                    let i = choose|i: int| 0 <= i < model_handles(d).len() && model_handles(d)[i] == ws.last().hwnd;
                    assert(model_handles(ws)[i] == model_handles(ws)[ws.len() - 1]);
                }
            }
            let kh = model_handles(k.push(ws.last()));
            assert(kh =~= model_handles(k).push(ws.last().hwnd));
            assert forall|i: int, j: int| 0 <= i < kh.len() && 0 <= j < kh.len() && i != j implies kh[i] != kh[j] by {
                if i == kh.len() - 1 {
                    assert(model_handles(k).contains(kh[j]));
                } else if j == kh.len() - 1 {
                    assert(model_handles(k).contains(kh[i]));
                }
            }
        }
    }
}

proof fn lemma_add_found_handles(ws: Seq<WindowModel>, f: Seq<(isize, Seq<char>)>, icons: Map<Seq<char>, Seq<char>>, h: isize)
    ensures
        model_handles(add_found(ws, f, icons)).contains(h) <==> (model_handles(ws).contains(h) || found_handles(f).contains(h)),
    decreases f.len(),
{
    if f.len() > 0 {
        let w = add_found(ws, f.drop_last(), icons);
        lemma_add_found_handles(ws, f.drop_last(), icons, h);
        lemma_add_found_handles(ws, f.drop_last(), icons, f.last().0);
        assert(found_handles(f) =~= found_handles(f.drop_last()).push(f.last().0));
        let nw = new_window_model(f.last().0, f.last().1, icons);
        assert(model_handles(w.push(nw)) =~= model_handles(w).push(f.last().0));
        lemma_push_contains(model_handles(w), f.last().0, h);
        lemma_push_contains(found_handles(f.drop_last()), f.last().0, h);
    }
}

proof fn lemma_add_found_prefix(ws: Seq<WindowModel>, f: Seq<(isize, Seq<char>)>, icons: Map<Seq<char>, Seq<char>>)
    ensures
        add_found(ws, f, icons).len() >= ws.len(),
        add_found(ws, f, icons).take(ws.len() as int) == ws,
    decreases f.len(),
{
    if f.len() > 0 {
        lemma_add_found_prefix(ws, f.drop_last(), icons);
        let w = add_found(ws, f.drop_last(), icons);
        let nw = new_window_model(f.last().0, f.last().1, icons);
        assert(w.push(nw).take(ws.len() as int) =~= w.take(ws.len() as int));
    } else {
        assert(ws.take(ws.len() as int) =~= ws);
    }
}

proof fn lemma_add_found_unique(ws: Seq<WindowModel>, f: Seq<(isize, Seq<char>)>, icons: Map<Seq<char>, Seq<char>>)
    requires
        crate::state::handles_unique(model_handles(ws)),
    ensures
        crate::state::handles_unique(model_handles(add_found(ws, f, icons))),
    decreases f.len(),
{
    if f.len() > 0 {
        lemma_add_found_unique(ws, f.drop_last(), icons);
        let w = add_found(ws, f.drop_last(), icons);
        if !model_handles(w).contains(f.last().0) {
            let nw = new_window_model(f.last().0, f.last().1, icons);
            let kh = model_handles(w.push(nw));
            assert(kh =~= model_handles(w).push(f.last().0));
            assert forall|i: int, j: int| 0 <= i < kh.len() && 0 <= j < kh.len() && i != j implies kh[i] != kh[j] by {
                if i == kh.len() - 1 {
                    assert(model_handles(w)[j] == kh[j]);
                } else if j == kh.len() - 1 {
                    assert(model_handles(w)[i] == kh[i]);
                }
            }
        }
    }
}

proof fn lemma_add_found_all_listed(ws: Seq<WindowModel>, f: Seq<(isize, Seq<char>)>, icons: Map<Seq<char>, Seq<char>>)
    requires
        forall|i: int| 0 <= i < f.len() ==> model_handles(ws).contains(#[trigger] f[i].0),
    ensures
        add_found(ws, f, icons) == ws,
    decreases f.len(),
{
    if f.len() > 0 {
        assert forall|i: int| 0 <= i < f.drop_last().len() implies model_handles(ws).contains(#[trigger] f.drop_last()[i].0) by {
            assert(f.drop_last()[i] == f[i]);
        }
        lemma_add_found_all_listed(ws, f.drop_last(), icons);
        assert(model_handles(ws).contains(f[f.len() - 1].0));
    }
}

/// Law: after a scan, a window is listed exactly when it was found open.
pub proof fn law_scan_lists_the_open_windows(
    ws: Seq<WindowModel>,
    found: Seq<(isize, Seq<char>)>,
    icons: Map<Seq<char>, Seq<char>>,
    h: isize,
)
    ensures
        model_handles(synced_windows(ws, found, icons)).contains(h) <==> found_handles(found).contains(h),
{
    let fh = found_handles(found);
    lemma_kept_handles(ws, fh, h);
    lemma_add_found_handles(kept_windows(ws, fh), found, icons, h);
}

/// Law: a scan lists no window twice, where the list had none twice before.
pub proof fn law_scan_keeps_windows_distinct(
    ws: Seq<WindowModel>,
    found: Seq<(isize, Seq<char>)>,
    icons: Map<Seq<char>, Seq<char>>,
)
    requires
        crate::state::handles_unique(model_handles(ws)),
    ensures
        crate::state::handles_unique(model_handles(synced_windows(ws, found, icons))),
{
    let fh = found_handles(found);
    lemma_kept_unique(ws, fh);
    lemma_add_found_unique(kept_windows(ws, fh), found, icons);
}

/// Law: the windows that stay open keep their order and all they hold
/// (name, class, icon) at the head of the list; the new ones follow them.
pub proof fn law_scan_keeps_open_windows_first(
    ws: Seq<WindowModel>,
    found: Seq<(isize, Seq<char>)>,
    icons: Map<Seq<char>, Seq<char>>,
)
    ensures
        ({
            let k = kept_windows(ws, found_handles(found));
            let r = synced_windows(ws, found, icons);
            r.len() >= k.len() && r.take(k.len() as int) == k
        }),
{
    lemma_add_found_prefix(kept_windows(ws, found_handles(found)), found, icons);
}

proof fn lemma_kept_is_filter(ws: Seq<WindowModel>, open: Seq<isize>, still_open: spec_fn(WindowModel) -> bool)
    requires
        forall|w: WindowModel| #[trigger] still_open(w) == open.contains(w.hwnd),
    ensures
        kept_windows(ws, open) == ws.filter(still_open),
    decreases ws.len(),
{
    reveal(Seq::filter);
    if ws.len() > 0 {
        lemma_kept_is_filter(ws.drop_last(), open, still_open);
        assert(still_open(ws.last()) == open.contains(ws.last().hwnd));
    }
}

/// Law: a scan keeps, at the head of the list, exactly the listed windows
/// that were found open, each one unchanged (handle, title, name, class and
/// icon) and in the order they had.
pub proof fn law_scan_keeps_open_windows_unchanged(
    ws: Seq<WindowModel>,
    found: Seq<(isize, Seq<char>)>,
    icons: Map<Seq<char>, Seq<char>>,
)
    ensures
        ({
            let still_open = |w: WindowModel| found_handles(found).contains(w.hwnd);
            let k = ws.filter(still_open);
            let r = synced_windows(ws, found, icons);
            r.len() >= k.len() && r.take(k.len() as int) == k
        }),
{
    let still_open = |w: WindowModel| found_handles(found).contains(w.hwnd);
    lemma_kept_is_filter(ws, found_handles(found), still_open);
    lemma_add_found_prefix(kept_windows(ws, found_handles(found)), found, icons);
}

proof fn lemma_add_found_new(ws: Seq<WindowModel>, f: Seq<(isize, Seq<char>)>, icons: Map<Seq<char>, Seq<char>>, j: int)
    requires
        ws.len() <= j < add_found(ws, f, icons).len(),
    ensures
        exists|q: int| #![trigger f[q]] 0 <= q < f.len()
            && (forall|p: int| 0 <= p < q ==> f[p].0 != f[q].0)
            && add_found(ws, f, icons)[j] == new_window_model(f[q].0, f[q].1, icons),
    decreases f.len(),
{
    lemma_add_found_prefix(ws, f.drop_last(), icons);
    let w = add_found(ws, f.drop_last(), icons);
    let d = f.drop_last();
    if j < w.len() {
        lemma_add_found_new(ws, d, icons, j);
        let q = choose|q: int| #![trigger d[q]] 0 <= q < d.len()
            && (forall|p: int| 0 <= p < q ==> d[p].0 != d[q].0)
            && w[j] == new_window_model(d[q].0, d[q].1, icons);
        assert(f[q] == d[q]);
        assert forall|p: int| 0 <= p < q implies f[p].0 != f[q].0 by {
            assert(f[p] == d[p]);
        }
        if !model_handles(w).contains(f.last().0) {
            let nw = new_window_model(f.last().0, f.last().1, icons);
            assert(w.push(nw)[j] == w[j]);
        }
    } else {
        let q = f.len() - 1;
        assert forall|p: int| 0 <= p < q implies f[p].0 != f[q].0 by {
            if f[p].0 == f[q].0 {
                assert(d[p] == f[p]);
                assert(found_handles(d)[p] == f[q].0);
                lemma_add_found_handles(ws, d, icons, f[q].0);
            }
        }
        assert(f[q] == f.last());
    }
}

/// Law: every window a scan adds after the kept ones stands for a found
/// window (the first found with its handle): it has that window's handle and
/// whole title, the name and the class split from the title, and the icon
/// remembered for the name, or "default" where none is.
pub proof fn law_scan_adds_found_windows(
    ws: Seq<WindowModel>,
    found: Seq<(isize, Seq<char>)>,
    icons: Map<Seq<char>, Seq<char>>,
    j: int,
)
    requires
        kept_windows(ws, found_handles(found)).len() <= j < synced_windows(ws, found, icons).len(),
    ensures
        exists|q: int| #![trigger found[q]] 0 <= q < found.len()
            && (forall|p: int| 0 <= p < q ==> found[p].0 != found[q].0)
            && ({
                let w = synced_windows(ws, found, icons)[j];
                let name = title_name(found[q].1);
                &&& w.hwnd == found[q].0
                &&& w.original_title == found[q].1
                &&& w.name == name
                &&& w.class == title_class(found[q].1)
                &&& w.icon == (if icons.contains_key(name) { icons[name] } else { seq!['d', 'e', 'f', 'a', 'u', 'l', 't'] })
            }),
{
    reveal_strlit("default");
    assert("default"@ =~= seq!['d', 'e', 'f', 'a', 'u', 'l', 't']);
    lemma_add_found_new(kept_windows(ws, found_handles(found)), found, icons, j);
}

/// Law: a second scan that finds the same windows changes nothing.
pub proof fn law_scan_is_idempotent(
    ws: Seq<WindowModel>,
    found: Seq<(isize, Seq<char>)>,
    icons: Map<Seq<char>, Seq<char>>,
)
    ensures
        synced_windows(synced_windows(ws, found, icons), found, icons) == synced_windows(ws, found, icons),
{
    let fh = found_handles(found);
    let s1 = synced_windows(ws, found, icons);
    assert forall|i: int| 0 <= i < s1.len() implies fh.contains(#[trigger] s1[i].hwnd) by {
        assert(model_handles(s1)[i] == s1[i].hwnd);
        law_scan_lists_the_open_windows(ws, found, icons, s1[i].hwnd);
    }
    lemma_kept_all_open(s1, fh);
    assert forall|i: int| 0 <= i < found.len() implies model_handles(s1).contains(#[trigger] found[i].0) by {
        assert(fh[i] == found[i].0);
        law_scan_lists_the_open_windows(ws, found, icons, found[i].0);
    }
    lemma_add_found_all_listed(s1, found, icons);
}

/// Law: the icon chosen for a character is the one that a window of that
/// character found later gets.
pub proof fn law_assigned_icon_is_remembered(
    icons: Map<Seq<char>, Seq<char>>,
    hwnd: isize,
    title: Seq<char>,
    icon: Seq<char>,
)
    ensures
        new_window_model(hwnd, title, icons.insert(title_name(title), icon)).icon == icon,
{
}

/// The executable at `path` is a game client: the lower-case form of its
/// file name contains "dofus".
pub open spec fn is_dofus_image(path: Seq<char>) -> bool {
    has_infix(lowercase(last_path_segment(path)), "dofus"@)
}

/// Whether the executable at `full_path` is a game client.
pub fn is_dofus_executable(full_path: &str) -> (r: bool)
    ensures
        r == is_dofus_image(full_path@),
{
    let file = path_file_name(full_path);
    let lower = to_lowercase(file.as_str());
    let hay = chars_of(lower.as_str());
    let needle = chars_of("dofus");
    contains_text(&hay, &needle)
}

/// Decides whether an open window is a game window to list. The caller
/// hands over what the system says of it: whether it is visible, the id of
/// its process and of this program's own, the UTF-16 path of the process's
/// executable (`None` where it could not be had) and the UTF-16 title. A
/// window is listed when it is visible, belongs to another process, runs a
/// game client and has a title.
pub fn scanned_window(
    hwnd: isize,
    visible: bool,
    process_id: u32,
    own_process_id: u32,
    image_path: Option<Vec<u16>>,
    title: &Vec<u16>,
) -> (r: Option<ScannedWindow>)
    ensures
        r is Some <==> (visible && process_id != own_process_id && image_path is Some
            && is_dofus_image(utf16_lossy(image_path->0@)) && title@.len() > 0),
        r matches Some(w) ==> w.hwnd == hwnd && w.title@ == utf16_lossy(title@),
{
    if !visible {
        return None;
    }
    if process_id == own_process_id {
        return None;
    }
    match image_path {
        None => None,
        Some(units) => {
            let full_path = decode_utf16_lossy(units.as_slice());
            if !is_dofus_executable(full_path.as_str()) {
                return None;
            }
            if title.len() == 0 {
                return None;
            }
            let t = decode_utf16_lossy(title.as_slice());
            Some(ScannedWindow { hwnd, title: t })
        },
    }
}

/// The key with virtual-key code `k` is held down in a snapshot of key
/// states: the high bit of its state is set.
pub open spec fn key_down(states: Seq<i16>, k: int) -> bool {
    0 <= k < states.len() && ((states[k] as u16) & 0x8000u16) != 0u16
}

/// Law: a key counts as held down exactly when its state is negative, which
/// is when the high bit of the 16-bit state is set.
pub proof fn law_key_down_is_negative_state(states: Seq<i16>, k: int)
    ensures
        key_down(states, k) <==> (0 <= k < states.len() && states[k] < 0),
{
    if 0 <= k < states.len() {
        let x = states[k];
        assert(((x as u16) & 0x8000u16 != 0u16) <==> x < 0) by (bit_vector);
    }
}

/// The lowest virtual-key code that the key detection looks at: codes 1 to 6
/// are mouse buttons and are never taken.
pub const FIRST_KEYBOARD_CODE: u32 = 7u32;

/// One past the highest virtual-key code that the key detection looks at.
pub const KEY_CODE_END: u32 = 255u32;

/// The key pressed while a hotkey is being rebound: the lowest code from 7
/// up to 254 whose key is held down in `key_states`, where `key_states[k]`
/// is the state of the key with code `k`; `None` where no such key is down.
pub fn detect_keypress(key_states: &Vec<i16>) -> (r: Option<u32>)
    ensures
        match r {
            Some(k) => FIRST_KEYBOARD_CODE <= k < KEY_CODE_END && key_down(key_states@, k as int)
                && forall|j: int| FIRST_KEYBOARD_CODE <= j < k ==> !key_down(key_states@, j),
            None => forall|j: int| FIRST_KEYBOARD_CODE <= j < KEY_CODE_END ==> !key_down(key_states@, j),
        },
{
    let mut key: u32 = FIRST_KEYBOARD_CODE;
    while key < KEY_CODE_END
        invariant
            FIRST_KEYBOARD_CODE <= key <= KEY_CODE_END,
            forall|j: int| FIRST_KEYBOARD_CODE <= j < key ==> !key_down(key_states@, j),
        decreases KEY_CODE_END - key,
    {
        let k = key as usize;
        if k < key_states.len() {
            let state: i16 = key_states[k];
            if ((state as u16) & 0x8000u16) != 0u16 {
                return Some(key);
            }
        }
        key = key + 1;
    }
    None
}

/// The name shown for the key with code `vk_code`: the system's name for it
/// where the system gave one (`key_text`, UTF-16), else "VK_" and the code
/// in decimal.
pub fn get_key_name(vk_code: u32, key_text: &Vec<u16>) -> (r: String)
    ensures
        r@ == (if key_text@.len() > 0 { utf16_lossy(key_text@) } else { "VK_"@ + decimal(vk_code as nat) }),
        r@.len() > 0,
{
    if key_text.len() > 0 {
        decode_utf16_lossy(key_text.as_slice())
    } else {
        let mut r = String::from_str("VK_");
        push_decimal(&mut r, vk_code);
        proof {
            crate::text::lemma_decimal_not_empty(vk_code as nat);
        }
        r
    }
}

} // verus!
