//! The switcher's state: the detected game windows, the hotkey bindings and
//! the remembered icon of each character.
use vstd::prelude::*;
use crate::actions::GameAction;

verus! {

/// One detected game window. The window handle is held as the integer that
/// the operating system hands out for it.
#[derive(Clone, Debug)]
pub struct DofusWindow {
    pub hwnd: isize,
    pub original_title: String,
    pub name: String,
    pub class: String,
    pub icon: String,
}

/// What a `DofusWindow` holds, as mathematical values.
pub struct WindowModel {
    pub hwnd: isize,
    pub original_title: Seq<char>,
    pub name: Seq<char>,
    pub class: Seq<char>,
    pub icon: Seq<char>,
}

impl View for DofusWindow {
    type V = WindowModel;

    open spec fn view(&self) -> WindowModel {
        WindowModel {
            hwnd: self.hwnd,
            original_title: self.original_title@,
            name: self.name@,
            class: self.class@,
            icon: self.icon@,
        }
    }
}

/// The handles of a list of windows, in order.
pub open spec fn handles(ws: Seq<DofusWindow>) -> Seq<isize> {
    ws.map_values(|w: DofusWindow| w.hwnd)
}

/// The models of a list of windows, in order.
pub open spec fn models(ws: Seq<DofusWindow>) -> Seq<WindowModel> {
    ws.map_values(|w: DofusWindow| w@)
}

/// No handle occurs twice.
pub open spec fn handles_unique(hs: Seq<isize>) -> bool {
    forall|i: int, j: int| 0 <= i < hs.len() && 0 <= j < hs.len() && i != j ==> hs[i] != hs[j]
}

/// The key/value texts of a list of string pairs.
pub open spec fn pair_views(v: Seq<(String, String)>) -> Seq<(Seq<char>, Seq<char>)> {
    v.map_values(|p: (String, String)| (p.0@, p.1@))
}

/// The value of the last pair whose key is `k`, if any: what a map holds for
/// `k` after the pairs were inserted into it one by one.
pub open spec fn assoc_get(s: Seq<(Seq<char>, Seq<char>)>, k: Seq<char>) -> Option<Seq<char>>
    decreases s.len(),
{
    if s.len() == 0 {
        None
    } else if s.last().0 == k {
        Some(s.last().1)
    } else {
        assoc_get(s.drop_last(), k)
    }
}

/// The map that inserting the pairs one by one, in order, builds.
pub open spec fn pairs_map(s: Seq<(Seq<char>, Seq<char>)>) -> Map<Seq<char>, Seq<char>> {
    Map::new(|k: Seq<char>| assoc_get(s, k) is Some, |k: Seq<char>| assoc_get(s, k)->0)
}

/// No key occurs twice among the pairs.
pub open spec fn keys_unique(s: Seq<(Seq<char>, Seq<char>)>) -> bool {
    forall|i: int, j: int| 0 <= i < s.len() && 0 <= j < s.len() && i != j ==> s[i].0 != s[j].0
}

proof fn lemma_assoc_absent(s: Seq<(Seq<char>, Seq<char>)>, k: Seq<char>)
    requires
        forall|i: int| 0 <= i < s.len() ==> s[i].0 != k,
    ensures
        assoc_get(s, k) is None,
    decreases s.len(),
{
    if s.len() > 0 {
        assert(s.last().0 != k);
        lemma_assoc_absent(s.drop_last(), k);
    }
}

proof fn lemma_assoc_at(s: Seq<(Seq<char>, Seq<char>)>, i: int)
    requires
        keys_unique(s),
        0 <= i < s.len(),
    ensures
        assoc_get(s, s[i].0) == Some(s[i].1),
    decreases s.len(),
{
    if i < s.len() - 1 {
        assert(s.last().0 != s[i].0);
        assert(s.drop_last()[i] == s[i]);
        lemma_assoc_at(s.drop_last(), i);
    }
}

proof fn lemma_assoc_update(s: Seq<(Seq<char>, Seq<char>)>, i: int, v: Seq<char>, k2: Seq<char>)
    requires
        keys_unique(s),
        0 <= i < s.len(),
    ensures
        assoc_get(s.update(i, (s[i].0, v)), k2) == if k2 == s[i].0 { Some(v) } else { assoc_get(s, k2) },
    decreases s.len(),
{
    let t = s.update(i, (s[i].0, v));
    if i == s.len() - 1 {
        assert(t.drop_last() =~= s.drop_last());
    } else {
        assert(t.drop_last() =~= s.drop_last().update(i, (s[i].0, v)));
        assert(s.drop_last()[i] == s[i]);
        assert(s.last().0 != s[i].0);
        lemma_assoc_update(s.drop_last(), i, v, k2);
    }
}

proof fn lemma_assoc_contains(s: Seq<(Seq<char>, Seq<char>)>, k: Seq<char>, v: Seq<char>)
    requires
        keys_unique(s),
    ensures
        assoc_get(s, k) == Some(v) <==> s.contains((k, v)),
        assoc_get(s, k) is None <==> forall|i: int| 0 <= i < s.len() ==> s[i].0 != k,
{
    if exists|i: int| 0 <= i < s.len() && s[i].0 == k {
        let i = choose|i: int| 0 <= i < s.len() && s[i].0 == k;
        lemma_assoc_at(s, i);
        if s.contains((k, v)) {
            let j = choose|j: int| 0 <= j < s.len() && s[j] == (k, v);
            assert(s[j].0 == s[i].0);
        }
    } else {
        lemma_assoc_absent(s, k);
    }
}

/// Law: the remembered icons do not depend on the order of the pairs they
/// are rebuilt from. Two lists of (name, icon) pairs, each name once, that
/// hold the same pairs (as the configuration file's map gives back, in any
/// order, the pairs that `AppConfig::entries` gave) build the same map, so
/// `AppConfig::from_entries` gives back the same icons.
pub proof fn law_icons_rebuilt_in_any_order(a: Seq<(Seq<char>, Seq<char>)>, b: Seq<(Seq<char>, Seq<char>)>)
    requires
        keys_unique(a),
        keys_unique(b),
        a.to_multiset() == b.to_multiset(),
    ensures
        pairs_map(a) == pairs_map(b),
{
    broadcast use vstd::seq_lib::group_to_multiset_ensures;
    assert forall|p: (Seq<char>, Seq<char>)| a.contains(p) <==> b.contains(p) by {
        assert(a.contains(p) <==> a.to_multiset().count(p) > 0);
        assert(b.contains(p) <==> b.to_multiset().count(p) > 0);
    }
    assert forall|k: Seq<char>| #[trigger] assoc_get(a, k) == assoc_get(b, k) by {
        match assoc_get(a, k) {
            Some(v) => {
                lemma_assoc_contains(a, k, v);
                lemma_assoc_contains(b, k, v);
            },
            None => {
                lemma_assoc_contains(a, k, Seq::empty());
                lemma_assoc_contains(b, k, Seq::empty());
                match assoc_get(b, k) {
                    Some(w) => {
                        lemma_assoc_contains(b, k, w);
                        lemma_assoc_contains(a, k, w);
                        let j = choose|j: int| 0 <= j < a.len() && a[j] == (k, w);
                        assert(a[j].0 == k);
                    },
                    None => {},
                }
            },
        }
    }
    assert(pairs_map(a) =~= pairs_map(b));
}

/// The remembered icon of each character name.
#[derive(Debug)]
pub struct AppConfig {
    character_icons: Vec<(String, String)>,
}

impl AppConfig {
    #[verifier::type_invariant]
    spec fn names_unique(self) -> bool {
        keys_unique(pair_views(self.character_icons@))
    }

    /// The character name -> icon name map.
    pub closed spec fn icons(self) -> Map<Seq<char>, Seq<char>> {
        pairs_map(pair_views(self.character_icons@))
    }

    /// A configuration that remembers no icon.
    pub fn new() -> (r: AppConfig)
        ensures
            r.icons() == Map::<Seq<char>, Seq<char>>::empty(),
    {
        let r = AppConfig { character_icons: Vec::new() };
        assert(r.icons() =~= Map::<Seq<char>, Seq<char>>::empty());
        r
    }

    /// A configuration built from (name, icon) pairs, as inserting them one
    /// by one into a map builds it: a later pair wins over an earlier one of
    /// the same name.
    pub fn from_entries(entries: &Vec<(String, String)>) -> (r: AppConfig)
        ensures
            r.icons() == pairs_map(pair_views(entries@)),
    {
        let mut r = AppConfig::new();
        let n = entries.len();
        let mut i: usize = 0;
        assert(pairs_map(pair_views(entries@.take(0))) =~= r.icons());
        while i < n
            invariant
                n == entries.len(),
                i <= n,
                r.icons() == pairs_map(pair_views(entries@.take(i as int))),
            decreases n - i,
        {
            let name = entries[i].0.clone();
            let icon = entries[i].1.clone();
            r.set_icon(name, icon);
            proof {
                let a = pair_views(entries@.take(i as int));
                let b = pair_views(entries@.take(i + 1));
                assert(b.drop_last() =~= a);
                assert forall|k: Seq<char>| #[trigger] assoc_get(b, k)
                    == (if k == entries@[i as int].0@ { Some(entries@[i as int].1@) } else { assoc_get(a, k) }) by {}
                assert(pairs_map(b) =~= pairs_map(a).insert(entries@[i as int].0@, entries@[i as int].1@));
            }
            i = i + 1;
        }
        assert(entries@.take(n as int) =~= entries@);
        r
    }

    /// The remembered (name, icon) pairs, each name once.
    pub fn entries(&self) -> (r: Vec<(String, String)>)
        ensures
            keys_unique(pair_views(r@)),
            pairs_map(pair_views(r@)) == self.icons(),
    {
        proof {
            use_type_invariant(self);
        }
        let n = self.character_icons.len();
        let mut r: Vec<(String, String)> = Vec::new();
        let mut i: usize = 0;
        while i < n
            invariant
                n == self.character_icons.len(),
                i <= n,
                pair_views(r@) == pair_views(self.character_icons@).take(i as int),
            decreases n - i,
        {
            let name = self.character_icons[i].0.clone();
            let icon = self.character_icons[i].1.clone();
            let ghost old_r = r@;
            r.push((name, icon));
            assert(pair_views(r@) =~= pair_views(old_r).push(pair_views(self.character_icons@)[i as int]));
            assert(pair_views(r@) =~= pair_views(self.character_icons@).take(i + 1));
            i = i + 1;
        }
        assert(pair_views(r@) =~= pair_views(self.character_icons@));
        r
    }

    /// The icon remembered for the character `name`, if any.
    pub fn icon_of(&self, name: &String) -> (r: Option<String>)
        ensures
            r is Some <==> self.icons().contains_key(name@),
            r matches Some(icon) ==> icon@ == self.icons()[name@],
    {
        proof {
            use_type_invariant(self);
        }
        let ghost s = pair_views(self.character_icons@);
        let n = self.character_icons.len();
        let mut i: usize = 0;
        while i < n
            invariant
                n == self.character_icons.len(),
                s == pair_views(self.character_icons@),
                keys_unique(s),
                i <= n,
                forall|j: int| 0 <= j < i ==> s[j].0 != name@,
            decreases n - i,
        {
            if self.character_icons[i].0 == *name {
                proof {
                    lemma_assoc_at(s, i as int);
                }
                return Some(self.character_icons[i].1.clone());
            }
            i = i + 1;
        }
        proof {
            lemma_assoc_absent(s, name@);
        }
        None
    }

    /// Remembers `icon` as the icon of the character `name`, in place of any
    /// icon remembered for it before.
    pub fn set_icon(&mut self, name: String, icon: String)
        ensures
            final(self).icons() == old(self).icons().insert(name@, icon@),
    {
        proof {
            use_type_invariant(&*self);
        }
        let mut v: Vec<(String, String)> = Vec::new();
        std::mem::swap(&mut v, &mut self.character_icons);
        let ghost s = pair_views(v@);
        assert(s == pair_views(old(self).character_icons@));
        let n = v.len();
        let mut i: usize = 0;
        while i < n
            invariant
                n == v.len(),
                s == pair_views(v@),
                s == pair_views(old(self).character_icons@),
                keys_unique(s),
                i <= n,
                forall|j: int| 0 <= j < i ==> s[j].0 != name@,
            decreases n - i,
        {
            if v[i].0 == name {
                let ghost nm = name@;
                let ghost ic = icon@;
                v.set(i, (name, icon));
                proof {
                    let t = pair_views(v@);
                    assert(t =~= s.update(i as int, (s[i as int].0, ic)));
                    assert forall|k: Seq<char>| #[trigger] assoc_get(t, k)
                        == (if k == nm { Some(ic) } else { assoc_get(s, k) }) by {
                        lemma_assoc_update(s, i as int, ic, k);
                    }
                    assert(keys_unique(t));
                    assert(pairs_map(t) =~= pairs_map(s).insert(nm, ic));
                }
                self.character_icons = v;
                return;
            }
            i = i + 1;
        }
        let ghost nm = name@;
        let ghost ic = icon@;
        v.push((name, icon));
        proof {
            let t = pair_views(v@);
            assert(t =~= s.push((nm, ic)));
            assert(t.drop_last() =~= s);
            assert forall|k: Seq<char>| #[trigger] assoc_get(t, k)
                == (if k == nm { Some(ic) } else { assoc_get(s, k) }) by {}
            assert(keys_unique(t));
            assert(pairs_map(t) =~= pairs_map(s).insert(nm, ic));
        }
        self.character_icons = v;
    }
}

/// A hotkey: the action it asks for, its virtual-key code and the key's name
/// as shown to the user.
#[derive(Clone, Debug)]
pub struct KeyBinding {
    pub action: GameAction,
    pub vk_code: u32,
    pub name: String,
}

/// The virtual-key code bound to "next window" at start: the `<` key of
/// European keyboards (`VK_OEM_102`).
pub const DEFAULT_NEXT_KEY: u32 = 0xE2u32;

/// The virtual-key code bound to "previous window" at start: `F2` (`VK_F2`).
pub const DEFAULT_PREV_KEY: u32 = 0x71u32;

/// The bindings the switcher starts with: `<` for the next window and `F2`
/// for the previous one, under the key names given.
pub fn default_bindings(next_name: String, prev_name: String) -> (r: Vec<KeyBinding>)
    ensures
        r@.len() == 2,
        r@[0].action == GameAction::NextWindow,
        r@[0].vk_code == DEFAULT_NEXT_KEY,
        r@[0].name@ == next_name@,
        r@[1].action == GameAction::PrevWindow,
        r@[1].vk_code == DEFAULT_PREV_KEY,
        r@[1].name@ == prev_name@,
{
    let mut r: Vec<KeyBinding> = Vec::new();
    r.push(KeyBinding { action: GameAction::NextWindow, vk_code: DEFAULT_NEXT_KEY, name: next_name });
    r.push(KeyBinding { action: GameAction::PrevWindow, vk_code: DEFAULT_PREV_KEY, name: prev_name });
    r
}

/// The hotkey id under which binding `k` is registered.
pub open spec fn registration_id(k: int) -> int {
    k + 1
}

/// The action of the binding registered under hotkey id `id`, if any.
pub open spec fn hotkey_action(bindings: Seq<KeyBinding>, id: int) -> Option<GameAction> {
    if 0 < id <= bindings.len() {
        Some(bindings[id - 1].action)
    } else {
        None
    }
}

/// The list after its item at `source` was dragged to the place `target`.
pub open spec fn moved<T>(s: Seq<T>, source: int, target: int) -> Seq<T> {
    if source == target {
        s
    } else {
        s.remove(source).insert(target, s[source])
    }
}

/// Law: a drag puts the dragged item at the drop place and leaves the other
/// items in their order: taking the item away again gives the list without
/// the dragged item.
pub proof fn law_move_places_item<T>(s: Seq<T>, source: int, target: int)
    requires
        0 <= source < s.len(),
        0 <= target < s.len(),
    ensures
        moved(s, source, target).len() == s.len(),
        moved(s, source, target)[target] == s[source],
        moved(s, source, target).remove(target) == s.remove(source),
{
    if source != target {
        let m = moved(s, source, target);
        assert(m.remove(target) =~= s.remove(source));
    }
}

/// Law: dragging an item back from where it was dropped restores the list.
pub proof fn law_move_back_restores<T>(s: Seq<T>, source: int, target: int)
    requires
        0 <= source < s.len(),
        0 <= target < s.len(),
    ensures
        moved(moved(s, source, target), target, source) == s,
{
    if source != target {
        let m = moved(s, source, target);
        assert(m[target] == s[source]);
        assert(m.remove(target) =~= s.remove(source));
        assert(s.remove(source).insert(source, s[source]) =~= s);
    }
}

/// Law: dragging an item neither adds, loses nor duplicates an item.
pub proof fn law_move_keeps_items<T>(s: Seq<T>, source: int, target: int)
    requires
        0 <= source < s.len(),
        0 <= target < s.len(),
    ensures
        moved(s, source, target).to_multiset() == s.to_multiset(),
        moved(s, source, target).len() == s.len(),
{
    broadcast use vstd::multiset::group_multiset_axioms;
    if source != target {
        vstd::seq_lib::to_multiset_remove(s, source);
        vstd::seq_lib::to_multiset_insert(s.remove(source), target, s[source]);
        vstd::seq_lib::to_multiset_contains(s, s[source]);
        assert(s.to_multiset().remove(s[source]).insert(s[source]) =~= s.to_multiset());
    }
}

/// Law: a hotkey message that carries the id under which binding `k` was
/// registered asks for that binding's action, and no other id asks for any.
pub proof fn law_registered_hotkey_maps_back(bindings: Seq<KeyBinding>, k: int, id: int)
    requires
        0 <= k < bindings.len(),
    ensures
        hotkey_action(bindings, registration_id(k)) == Some(bindings[k].action),
        hotkey_action(bindings, id) is Some <==> exists|j: int| 0 <= j < bindings.len() && registration_id(j) == id,
{
    if hotkey_action(bindings, id) is Some {
        assert(registration_id(id - 1) == id);
    }
}

/// Law: after `set_icon(name, icon)` turned `before` into `after`,
/// `icon_of(name)` on `after` gives `icon`, and `icon_of` of any other name
/// gives what it gave on `before`.
pub proof fn law_icon_read_after_write(
    before: AppConfig,
    after: AppConfig,
    name: Seq<char>,
    icon: Seq<char>,
    other: Seq<char>,
)
    requires
        after.icons() == before.icons().insert(name, icon),
    ensures
        after.icons().contains_key(name),
        after.icons()[name] == icon,
        other != name ==> (after.icons().contains_key(other) == before.icons().contains_key(other)
            && (before.icons().contains_key(other) ==> after.icons()[other] == before.icons()[other])),
{
}

/// Law: dragging a window keeps the same handles listed, and keeps them
/// distinct where they were.
pub proof fn law_move_keeps_windows_distinct(ws: Seq<DofusWindow>, source: int, target: int, h: isize)
    requires
        0 <= source < ws.len(),
        0 <= target < ws.len(),
    ensures
        handles(moved(ws, source, target)).contains(h) <==> handles(ws).contains(h),
        handles_unique(handles(ws)) ==> handles_unique(handles(moved(ws, source, target))),
{
    if source != target {
        let r = ws.remove(source);
        let m = moved(ws, source, target);
        assert(handles(r) =~= handles(ws).remove(source));
        assert(handles(m) =~= handles(r).insert(target, ws[source].hwnd));
        let hs = handles(ws);
        let hm = handles(m);
        // index of each moved item in the old list
        assert forall|p: int| 0 <= p < hm.len() implies hm[p] == hs[
            if p == target { source } else if (if p < target { p } else { p - 1 }) < source {
                if p < target { p } else { p - 1 }
            } else {
                (if p < target { p } else { p - 1 }) + 1
            }
        ] by {}
        if hs.contains(h) {
            let q = choose|q: int| 0 <= q < hs.len() && hs[q] == h;
            let rq = if q == source { -1 } else if q < source { q } else { q - 1 };
            if q == source {
                assert(hm[target] == h);
            } else {
                assert(handles(r)[rq] == h);
                let p = if rq < target { rq } else { rq + 1 };
                assert(hm[p] == h);
            }
        }
        if handles_unique(hs) {
            assert forall|p1: int, p2: int| 0 <= p1 < hm.len() && 0 <= p2 < hm.len() && p1 != p2
                implies hm[p1] != hm[p2] by {}
        }
    }
}

/// Law: hiding a window lists no handle that was not listed, and keeps the
/// handles distinct where they were.
pub proof fn law_remove_keeps_windows_distinct(ws: Seq<DofusWindow>, idx: int, h: isize)
    requires
        0 <= idx < ws.len(),
    ensures
        handles(ws.remove(idx)).contains(h) ==> handles(ws).contains(h),
        handles_unique(handles(ws)) ==> handles_unique(handles(ws.remove(idx))),
{
    let hr = handles(ws.remove(idx));
    let hs = handles(ws);
    assert(hr =~= hs.remove(idx));
    assert forall|p: int| 0 <= p < hr.len() implies hr[p] == hs[if p < idx { p } else { p + 1 }] by {}
    if hr.contains(h) {
        let p = choose|p: int| 0 <= p < hr.len() && hr[p] == h;
        assert(hs[if p < idx { p } else { p + 1 }] == h);
    }
}

/// The whole state of the switcher.
pub struct AppState {
    pub windows: Vec<DofusWindow>,
    pub bindings: Vec<KeyBinding>,
    pub keys_need_update: bool,
    pub config: AppConfig,
}

impl AppState {
    /// The state at start: no window, no binding, the hotkeys to be
    /// registered and the configuration given.
    pub fn new(config: AppConfig) -> (r: AppState)
        ensures
            r.windows@.len() == 0,
            r.bindings@.len() == 0,
            r.keys_need_update,
            r.config == config,
    {
        AppState { windows: Vec::new(), bindings: Vec::new(), keys_need_update: true, config }
    }

    /// Reads and clears the flag that asks for the hotkeys to be registered
    /// anew.
    pub fn take_keys_update(&mut self) -> (r: bool)
        ensures
            r == old(self).keys_need_update,
            !final(self).keys_need_update,
            final(self).windows == old(self).windows,
            final(self).bindings == old(self).bindings,
            final(self).config == old(self).config,
    {
        let r = self.keys_need_update;
        self.keys_need_update = false;
        r
    }

    /// The (hotkey id, virtual-key code) pairs to register: binding `k`
    /// under id `k + 1`.
    pub fn hotkey_registrations(&self) -> (r: Vec<(i32, u32)>)
        requires
            self.bindings@.len() <= i32::MAX,
        ensures
            r@.len() == self.bindings@.len(),
            forall|k: int| 0 <= k < r@.len() ==> #[trigger] r@[k].0 == registration_id(k)
                && r@[k].1 == self.bindings@[k].vk_code,
    {
        let n = self.bindings.len();
        let mut r: Vec<(i32, u32)> = Vec::new();
        let mut i: usize = 0;
        while i < n
            invariant
                n == self.bindings@.len(),
                n <= i32::MAX,
                i <= n,
                r@.len() == i,
                forall|k: int| 0 <= k < i ==> #[trigger] r@[k].0 == registration_id(k)
                    && r@[k].1 == self.bindings@[k].vk_code,
            decreases n - i,
        {
            let id: i32 = (i + 1) as i32;
            r.push((id, self.bindings[i].vk_code));
            i = i + 1;
        }
        r
    }

    /// The action of the binding whose hotkey id came with a hotkey message.
    pub fn action_for_hotkey(&self, id: usize) -> (r: Option<GameAction>)
        ensures
            r == hotkey_action(self.bindings@, id as int),
    {
        if id > 0 && id <= self.bindings.len() {
            Some(self.bindings[id - 1].action)
        } else {
            None
        }
    }

    /// What a hotkey message with id `id` does while `foreground` is the
    /// foreground window: the window to focus, if any.
    pub fn hotkey_target(&self, id: usize, foreground: isize) -> (r: Option<isize>)
        ensures
            r == (match hotkey_action(self.bindings@, id as int) {
                Some(action) => crate::actions::execute_target(action, self.windows@, foreground),
                None => None,
            }),
    {
        match self.action_for_hotkey(id) {
            Some(action) => crate::actions::execute(action, &self.windows, foreground),
            None => None,
        }
    }

    /// Binds the key `vk_code`, named `name`, to binding `idx`, and asks for
    /// the hotkeys to be registered anew.
    pub fn rebind(&mut self, idx: usize, vk_code: u32, name: String)
        requires
            idx < old(self).bindings@.len(),
        ensures
            final(self).bindings@.len() == old(self).bindings@.len(),
            final(self).bindings@[idx as int].action == old(self).bindings@[idx as int].action,
            final(self).bindings@[idx as int].vk_code == vk_code,
            final(self).bindings@[idx as int].name@ == name@,
            forall|k: int| 0 <= k < old(self).bindings@.len() && k != idx ==>
                #[trigger] final(self).bindings@[k] == old(self).bindings@[k],
            final(self).keys_need_update,
            final(self).windows == old(self).windows,
            final(self).config == old(self).config,
    {
        let action = self.bindings[idx].action;
        self.bindings.set(idx, KeyBinding { action, vk_code, name });
        self.keys_need_update = true;
    }

    /// Drag and drop: moves the window at `source` to the place `target`.
    pub fn move_window(&mut self, source: usize, target: usize)
        requires
            source < old(self).windows@.len(),
            target < old(self).windows@.len(),
        ensures
            final(self).windows@ == moved(old(self).windows@, source as int, target as int),
            final(self).bindings == old(self).bindings,
            final(self).keys_need_update == old(self).keys_need_update,
            final(self).config == old(self).config,
    {
        if source != target {
            let item = self.windows.remove(source);
            self.windows.insert(target, item);
        }
    }

    /// Takes the window at `idx` off the list.
    pub fn remove_window(&mut self, idx: usize)
        requires
            idx < old(self).windows@.len(),
        ensures
            final(self).windows@ == old(self).windows@.remove(idx as int),
            final(self).bindings == old(self).bindings,
            final(self).keys_need_update == old(self).keys_need_update,
            final(self).config == old(self).config,
    {
        self.windows.remove(idx);
    }

    /// Gives the window at `idx` the icon `icon` and remembers it for the
    /// window's character name.
    pub fn assign_icon(&mut self, idx: usize, icon: String)
        requires
            idx < old(self).windows@.len(),
        ensures
            models(final(self).windows@) == models(old(self).windows@).update(
                idx as int,
                WindowModel { icon: icon@, ..old(self).windows@[idx as int]@ },
            ),
            final(self).config.icons() == old(self).config.icons().insert(
                old(self).windows@[idx as int].name@,
                icon@,
            ),
            handles(final(self).windows@) == handles(old(self).windows@),
            final(self).bindings == old(self).bindings,
            final(self).keys_need_update == old(self).keys_need_update,
    {
        let w = DofusWindow {
            hwnd: self.windows[idx].hwnd,
            original_title: self.windows[idx].original_title.clone(),
            name: self.windows[idx].name.clone(),
            class: self.windows[idx].class.clone(),
            icon: icon.clone(),
        };
        let name = self.windows[idx].name.clone();
        let ghost old_ws = self.windows@;
        self.windows.set(idx, w);
        self.config.set_icon(name, icon);
        assert(handles(self.windows@) =~= handles(old_ws));
        assert(models(self.windows@) =~= models(old_ws).update(
            idx as int,
            WindowModel { icon: icon@, ..old_ws[idx as int]@ },
        ));
    }
}

} // verus!
