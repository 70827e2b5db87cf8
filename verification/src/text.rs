//! Text rules of the switcher, over the characters of strings: window titles
//! split at " - ", executable paths, a substring search, the order in which
//! names are sorted and decimal numbers.
use vstd::prelude::*;
use vstd::string::*;

verus! {

/// The characters of `s`, one by one.
pub fn chars_of(s: &str) -> (v: Vec<char>)
    ensures
        v@ == s@,
{
    let n = s.unicode_len();
    let mut v: Vec<char> = Vec::new();
    let mut i: usize = 0;
    while i < n
        invariant
            n == s@.len(),
            i <= n,
            v@ == s@.take(i as int),
        decreases n - i,
    {
        let c = s.get_char(i);
        v.push(c);
        i = i + 1;
        assert(v@ =~= s@.take(i as int));
    }
    assert(s@.take(n as int) =~= s@);
    v
}

/// The owned string of the characters `from..to` of `s`.
pub fn substring(s: &str, from: usize, to: usize) -> (r: String)
    requires
        from <= to <= s@.len(),
    ensures
        r@ == s@.subrange(from as int, to as int),
{
    String::from_str(s.substring_char(from, to))
}

/// A " - " separator starts at index `i` of `s`.
pub open spec fn is_sep_at(s: Seq<char>, i: int) -> bool {
    &&& 0 <= i
    &&& i + 3 <= s.len()
    &&& s[i] == ' '
    &&& s[i + 1] == '-'
    &&& s[i + 2] == ' '
}

/// The first index at or after `start` where a " - " separator starts, or -1.
pub open spec fn find_sep(s: Seq<char>, start: int) -> int
    decreases s.len() - start,
{
    if start < 0 || start + 3 > s.len() {
        -1
    } else if is_sep_at(s, start) {
        start
    } else {
        find_sep(s, start + 1)
    }
}

pub proof fn lemma_find_sep_bounds(s: Seq<char>, start: int)
    requires
        0 <= start,
    ensures
        find_sep(s, start) == -1 || (start <= find_sep(s, start) && is_sep_at(s, find_sep(s, start))),
    decreases s.len() - start,
{
    if start + 3 <= s.len() && !is_sep_at(s, start) {
        lemma_find_sep_bounds(s, start + 1);
    }
}

proof fn lemma_find_sep_first(s: Seq<char>, start: int)
    requires
        0 <= start,
    ensures
        find_sep(s, start) == -1 || find_sep(s, start) >= start,
        find_sep(s, start) == -1 ==> forall|k: int| start <= k ==> !#[trigger] is_sep_at(s, k),
        find_sep(s, start) >= 0 ==> start <= find_sep(s, start) && is_sep_at(s, find_sep(s, start))
            && forall|k: int| start <= k < find_sep(s, start) ==> !#[trigger] is_sep_at(s, k),
    decreases s.len() - start,
{
    if start + 3 <= s.len() && !is_sep_at(s, start) {
        lemma_find_sep_first(s, start + 1);
    }
}

/// The index of the first " - " separator at or after `start`, if any.
pub fn find_separator(s: &Vec<char>, start: usize) -> (r: Option<usize>)
    ensures
        match r {
            Some(i) => i as int == find_sep(s@, start as int),
            None => find_sep(s@, start as int) == -1,
        },
{
    let n = s.len();
    let mut i = start;
    while i < n && n - i >= 3
        invariant
            n == s@.len(),
            start <= i,
            find_sep(s@, start as int) == find_sep(s@, i as int),
        decreases n - i,
    {
        if s[i] == ' ' && s[i + 1] == '-' && s[i + 2] == ' ' {
            return Some(i);
        }
        i = i + 1;
    }
    None
}

/// The character name of a window title: what stands before the first
/// " - ", or the whole title where there is none.
pub open spec fn title_name(t: Seq<char>) -> Seq<char> {
    let f = find_sep(t, 0);
    if f >= 0 { t.subrange(0, f) } else { t }
}

/// The character class of a window title: what stands between the first and
/// the second " - " (or the end), or "Dofus" where the title has no " - ".
pub open spec fn title_class(t: Seq<char>) -> Seq<char> {
    let f = find_sep(t, 0);
    if f >= 0 {
        let g = find_sep(t, f + 3);
        if g >= 0 { t.subrange(f + 3, g) } else { t.subrange(f + 3, t.len() as int) }
    } else {
        "Dofus"@
    }
}

/// " - " stands at index `k` of `t`: a space, a hyphen and a space.
pub open spec fn spaced_dash_at(t: Seq<char>, k: int) -> bool {
    0 <= k && k + 3 <= t.len() && t[k] == ' ' && t[k + 1] == '-' && t[k + 2] == ' '
}

/// Law: a title without " - " is all name, of class "Dofus". A title with
/// one is the name, the first " - ", the class, and then either its end or
/// the next " - ": the name and the class hold no " - " of their own, so the
/// class is exactly the second part of the title split at " - ".
pub proof fn law_title_parts(t: Seq<char>)
    ensures
        (forall|k: int| !#[trigger] spaced_dash_at(t, k)) ==> title_name(t) == t && title_class(t) == "Dofus"@,
        (exists|k: int| #[trigger] spaced_dash_at(t, k)) ==> ({
            let n = title_name(t);
            let c = title_class(t);
            let e = (n.len() + 3 + c.len()) as int;
            &&& e <= t.len()
            &&& t.subrange(0, n.len() as int) == n
            &&& spaced_dash_at(t, n.len() as int)
            &&& t.subrange(n.len() + 3int, e) == c
            &&& (e == t.len() || spaced_dash_at(t, e))
            &&& forall|k: int| 0 <= k < n.len() ==> !#[trigger] spaced_dash_at(t, k)
            &&& forall|k: int| n.len() + 3 <= k < e ==> !#[trigger] spaced_dash_at(t, k)
        }),
{
    lemma_find_sep_first(t, 0);
    let f = find_sep(t, 0);
    if f < 0 {
        assert forall|k: int| !#[trigger] spaced_dash_at(t, k) by {
            if 0 <= k {
                assert(!is_sep_at(t, k));
            }
        }
    } else {
        assert(spaced_dash_at(t, f));
        let n = title_name(t);
        assert(n =~= t.subrange(0, f));
        assert forall|k: int| 0 <= k < n.len() implies !#[trigger] spaced_dash_at(t, k) by {
            assert(!is_sep_at(t, k));
        }
        lemma_find_sep_first(t, f + 3);
        let g = find_sep(t, f + 3);
        let c = title_class(t);
        let e = (n.len() + 3 + c.len()) as int;
        if g >= 0 {
            assert(c =~= t.subrange(f + 3, g));
            assert(e == g);
            assert(spaced_dash_at(t, e)) by { assert(is_sep_at(t, g)); }
        } else {
            assert(c =~= t.subrange(f + 3, t.len() as int));
            assert(e == t.len());
        }
        assert forall|k: int| n.len() + 3 <= k < e implies !#[trigger] spaced_dash_at(t, k) by {
            assert(!is_sep_at(t, k));
        }
        assert(t.subrange(n.len() + 3int, e) =~= c);
        assert(t.subrange(0, n.len() as int) =~= n);
    }
}

/// Splits a window title "Name - Class - ..." into its name and its class.
pub fn split_title(title: &str) -> (r: (String, String))
    ensures
        r.0@ == title_name(title@),
        r.1@ == title_class(title@),
{
    let cs = chars_of(title);
    proof {
        lemma_find_sep_bounds(title@, 0);
    }
    match find_separator(&cs, 0) {
        Some(f) => {
            assert(is_sep_at(title@, f as int));
            assert(f + 3 <= cs.len());
            proof {
                lemma_find_sep_bounds(title@, f + 3);
            }
            let name = substring(title, 0, f);
            let class = match find_separator(&cs, f + 3) {
                Some(g) => substring(title, f + 3, g),
                None => substring(title, f + 3, cs.len()),
            };
            (name, class)
        },
        None => (String::from_str(title), String::from_str("Dofus")),
    }
}

/// `needle` occurs in `hay` at index `i`.
pub open spec fn occurs_at(hay: Seq<char>, needle: Seq<char>, i: int) -> bool {
    &&& 0 <= i
    &&& i + needle.len() <= hay.len()
    &&& hay.subrange(i, i + needle.len()) == needle
}

/// `needle` occurs somewhere in `hay`.
pub open spec fn has_infix(hay: Seq<char>, needle: Seq<char>) -> bool {
    exists|i: int| occurs_at(hay, needle, i)
}

/// Whether `needle` occurs in `hay`.
pub fn contains_text(hay: &Vec<char>, needle: &Vec<char>) -> (r: bool)
    ensures
        r == has_infix(hay@, needle@),
{
    let n = hay.len();
    let m = needle.len();
    if m > n {
        assert forall|i: int| !occurs_at(hay@, needle@, i) by {}
        return false;
    }
    let mut i: usize = 0;
    while i <= n - m
        invariant
            n == hay@.len(),
            m == needle@.len(),
            m <= n,
            i <= n - m + 1,
            forall|k: int| 0 <= k < i ==> !occurs_at(hay@, needle@, k),
        decreases n - m + 1 - i,
    {
        let mut j: usize = 0;
        let mut same = true;
        while j < m
            invariant
                n == hay@.len(),
                m == needle@.len(),
                i + m <= n,
                j <= m,
                same == (forall|l: int| 0 <= l < j ==> hay@[i + l] == needle@[l]),
            decreases m - j,
        {
            if hay[i + j] != needle[j] {
                same = false;
            }
            j = j + 1;
        }
        if same {
            assert(hay@.subrange(i as int, i + m) =~= needle@);
            assert(occurs_at(hay@, needle@, i as int));
            return true;
        }
        assert(!occurs_at(hay@, needle@, i as int)) by {
            if hay@.subrange(i as int, i + m) == needle@ {
                assert forall|l: int| 0 <= l < m implies hay@[i + l] == needle@[l] by {
                    assert(hay@.subrange(i as int, i + m)[l] == hay@[i + l]);
                }
            }
        }
        i = i + 1;
    }
    assert forall|k: int| !occurs_at(hay@, needle@, k) by {
        if 0 <= k && k + m <= n {
            assert(k < i);
        }
    }
    false
}

/// The index of the last backslash of `s`, or -1.
pub open spec fn last_backslash(s: Seq<char>) -> int
    decreases s.len(),
{
    if s.len() == 0 {
        -1
    } else if s.last() == '\\' {
        s.len() - 1
    } else {
        last_backslash(s.drop_last())
    }
}

pub proof fn lemma_last_backslash_bounds(s: Seq<char>)
    ensures
        -1 <= last_backslash(s) < s.len(),
    decreases s.len(),
{
    if s.len() > 0 {
        lemma_last_backslash_bounds(s.drop_last());
    }
}

/// The last part of a Windows path: what follows its last backslash, or the
/// whole path where it has none.
pub open spec fn last_path_segment(s: Seq<char>) -> Seq<char> {
    s.subrange(last_backslash(s) + 1, s.len() as int)
}

proof fn lemma_last_backslash_last(s: Seq<char>)
    ensures
        last_backslash(s) >= 0 ==> s[last_backslash(s)] == '\\',
        forall|k: int| last_backslash(s) < k < s.len() ==> #[trigger] s[k] != '\\',
    decreases s.len(),
{
    if s.len() > 0 && s.last() != '\\' {
        lemma_last_backslash_last(s.drop_last());
        lemma_last_backslash_bounds(s.drop_last());
        if last_backslash(s) >= 0 {
            assert(s.drop_last()[last_backslash(s)] == s[last_backslash(s)]);
        }
        assert forall|k: int| last_backslash(s) < k < s.len() implies #[trigger] s[k] != '\\' by {
            if k < s.len() - 1 {
                assert(s.drop_last()[k] == s[k]);
            }
        }
    }
}

/// Law: the file name of a path is the end of the path that holds no
/// backslash and follows the last backslash (or is the whole path, where it
/// has none).
pub proof fn law_path_file_name_is_last_part(s: Seq<char>)
    ensures
        ({
            let f = last_path_segment(s);
            let start = s.len() - f.len();
            &&& 0 <= start
            &&& s.subrange(start, s.len() as int) == f
            &&& forall|i: int| 0 <= i < f.len() ==> #[trigger] f[i] != '\\'
            &&& (start == 0 || s[start - 1] == '\\')
        }),
{
    lemma_last_backslash_bounds(s);
    lemma_last_backslash_last(s);
    let f = last_path_segment(s);
    assert forall|i: int| 0 <= i < f.len() implies #[trigger] f[i] != '\\' by {
        assert(f[i] == s[last_backslash(s) + 1 + i]);
    }
}

/// The file name at the end of a Windows path.
pub fn path_file_name(path: &str) -> (r: String)
    ensures
        r@ == last_path_segment(path@),
{
    let cs = chars_of(path);
    let n = cs.len();
    let mut start: usize = 0;
    let mut i: usize = 0;
    while i < n
        invariant
            n == path@.len(),
            cs@ == path@,
            i <= n,
            start as int == last_backslash(path@.take(i as int)) + 1,
        decreases n - i,
    {
        assert(path@.take(i + 1).drop_last() =~= path@.take(i as int));
        if cs[i] == '\\' {
            start = i + 1;
        }
        i = i + 1;
    }
    assert(path@.take(n as int) =~= path@);
    proof {
        lemma_last_backslash_bounds(path@);
    }
    substring(path, start, n)
}

/// What `str::to_lowercase` gives for a text: its Unicode lower-case form
/// (each character's lower-case mapping, with a final capital sigma chosen by
/// its context).
pub uninterp spec fn lowercase(s: Seq<char>) -> Seq<char>;

/// Calls `str::to_lowercase`; the result is `lowercase` of the argument.
#[verifier::external_body]
pub(crate) fn to_lowercase(s: &str) -> (r: String)
    ensures
        r@ == lowercase(s@),
{
    s.to_lowercase()
}

/// `a` and `b` agree on their first `k` characters.
pub open spec fn agree_upto(a: Seq<char>, b: Seq<char>, k: int) -> bool {
    &&& 0 <= k <= a.len()
    &&& k <= b.len()
    &&& forall|j: int| 0 <= j < k ==> a[j] == b[j]
}

/// `a` and `b` part at index `k`: `a` ends there while `b` goes on, or both go
/// on and the character of `a` has the smaller code point.
pub open spec fn parts_below(a: Seq<char>, b: Seq<char>, k: int) -> bool {
    ||| k == a.len() && k < b.len()
    ||| k < a.len() && k < b.len() && (a[k] as int) < (b[k] as int)
}

/// `a` comes strictly before `b` in the order of `String`'s `Ord`: the
/// lexicographic order of code points, which is that of the UTF-8 bytes.
pub open spec fn text_less(a: Seq<char>, b: Seq<char>) -> bool {
    exists|k: int| agree_upto(a, b, k) && parts_below(a, b, k)
}

/// No text comes strictly before itself, and of two texts at most one comes
/// before the other.
pub proof fn lemma_text_less_asymmetric(a: Seq<char>, b: Seq<char>)
    ensures
        !(text_less(a, b) && text_less(b, a)),
        !text_less(a, a),
{
    if text_less(a, b) && text_less(b, a) {
        let k1 = choose|k: int| agree_upto(a, b, k) && parts_below(a, b, k);
        let k2 = choose|k: int| agree_upto(b, a, k) && parts_below(b, a, k);
        if k1 < k2 {
            assert(a[k1] == b[k1]);
        } else if k2 < k1 {
            assert(a[k2] == b[k2]);
        }
    }
    if text_less(a, a) {
        let k = choose|k: int| agree_upto(a, a, k) && parts_below(a, a, k);
    }
}

/// Two texts that differ are ordered one way or the other.
pub proof fn lemma_text_less_total(a: Seq<char>, b: Seq<char>)
    ensures
        a == b || text_less(a, b) || text_less(b, a),
{
    if a != b {
        let m = if a.len() < b.len() { a.len() as int } else { b.len() as int };
        if forall|j: int| 0 <= j < m ==> a[j] == b[j] {
            if a.len() == b.len() {
                assert(a =~= b);
            } else if a.len() < b.len() {
                assert(agree_upto(a, b, m) && parts_below(a, b, m));
            } else {
                assert(agree_upto(b, a, m) && parts_below(b, a, m));
            }
        } else {
            let d = choose|j: int| 0 <= j < m && a[j] != b[j];
            let k = lemma_first_difference(a, b, d);
            if (a[k] as int) < (b[k] as int) {
                assert(agree_upto(a, b, k) && parts_below(a, b, k));
            } else {
                assert(agree_upto(b, a, k) && parts_below(b, a, k));
            }
        }
    }
}

proof fn lemma_first_difference(a: Seq<char>, b: Seq<char>, d: int) -> (k: int)
    requires
        0 <= d < a.len(),
        d < b.len(),
        a[d] != b[d],
    ensures
        0 <= k <= d,
        a[k] != b[k],
        forall|j: int| 0 <= j < k ==> a[j] == b[j],
    decreases d,
{
    if forall|j: int| 0 <= j < d ==> a[j] == b[j] {
        d
    } else {
        let e = choose|j: int| 0 <= j < d && a[j] != b[j];
        lemma_first_difference(a, b, e)
    }
}

/// The order of texts is transitive.
pub proof fn lemma_text_less_transitive(a: Seq<char>, b: Seq<char>, c: Seq<char>)
    requires
        text_less(a, b),
        text_less(b, c),
    ensures
        text_less(a, c),
{
    let k1 = choose|k: int| agree_upto(a, b, k) && parts_below(a, b, k);
    let k2 = choose|k: int| agree_upto(b, c, k) && parts_below(b, c, k);
    if k1 < k2 {
        assert(agree_upto(a, c, k1) && parts_below(a, c, k1));
    } else if k2 < k1 {
        assert(agree_upto(a, c, k2) && parts_below(a, c, k2));
    } else {
        assert(agree_upto(a, c, k1) && parts_below(a, c, k1));
    }
}

/// Law: the order of texts is the lexicographic order of code points: `a`
/// comes before `b` exactly when `a` is a proper beginning of `b`, or when at
/// the first place where they differ the character of `a` has the smaller
/// code point.
pub proof fn law_text_order_is_lexicographic(a: Seq<char>, b: Seq<char>)
    ensures
        text_less(a, b) <==> ((a.len() < b.len() && b.take(a.len() as int) == a) || exists|k: int|
            0 <= k < a.len() && k < b.len() && #[trigger] a.take(k) == b.take(k) && (a[k] as int) < (b[k] as int)),
{
    if text_less(a, b) {
        let k = choose|k: int| agree_upto(a, b, k) && parts_below(a, b, k);
        assert(a.take(k) =~= b.take(k));
        if k == a.len() {
            assert(b.take(a.len() as int) =~= a);
        }
    }
    if a.len() < b.len() && b.take(a.len() as int) == a {
        assert forall|j: int| 0 <= j < a.len() implies a[j] == b[j] by {
            assert(b.take(a.len() as int)[j] == b[j]);
        }
        assert(agree_upto(a, b, a.len() as int) && parts_below(a, b, a.len() as int));
    }
    if exists|k: int| 0 <= k < a.len() && k < b.len() && #[trigger] a.take(k) == b.take(k) && (a[k] as int) < (b[k] as int) {
        let k = choose|k: int| 0 <= k < a.len() && k < b.len() && #[trigger] a.take(k) == b.take(k) && (a[k] as int) < (b[k] as int);
        assert forall|j: int| 0 <= j < k implies a[j] == b[j] by {
            assert(a.take(k)[j] == b.take(k)[j]);
        }
        assert(agree_upto(a, b, k) && parts_below(a, b, k));
    }
}

/// Whether `a` comes strictly before `b`.
pub fn less_text(a: &str, b: &str) -> (r: bool)
    ensures
        r == text_less(a@, b@),
{
    let x = chars_of(a);
    let y = chars_of(b);
    let mut k: usize = 0;
    while k < x.len() && k < y.len() && x[k] == y[k]
        invariant
            x@ == a@,
            y@ == b@,
            agree_upto(a@, b@, k as int),
        decreases x.len() - k,
    {
        k = k + 1;
    }
    let r = if k == x.len() {
        k < y.len()
    } else if k == y.len() {
        false
    } else {
        x[k] < y[k]
    };
    proof {
        if r {
            assert(agree_upto(a@, b@, k as int) && parts_below(a@, b@, k as int));
        } else {
            if k < x.len() && k < y.len() {
                assert(agree_upto(b@, a@, k as int) && parts_below(b@, a@, k as int));
                lemma_text_less_asymmetric(a@, b@);
            } else if k == x.len() && k == y.len() {
                assert(a@ =~= b@);
                lemma_text_less_asymmetric(a@, b@);
            } else {
                assert(agree_upto(b@, a@, k as int) && parts_below(b@, a@, k as int));
                lemma_text_less_asymmetric(a@, b@);
            }
        }
    }
    r
}

/// The texts of a list of strings.
pub open spec fn texts(v: Seq<String>) -> Seq<Seq<char>> {
    v.map_values(|s: String| s@)
}

/// No text of the list comes strictly before an earlier one.
pub open spec fn texts_sorted(t: Seq<Seq<char>>) -> bool {
    forall|i: int, j: int| 0 <= i < j < t.len() ==> !text_less(t[j], t[i])
}

/// Law: a sorted list of texts is fixed by its items: two sorted lists that
/// hold the same texts, each as many times, are the same list.
pub proof fn law_sorted_texts_fixed_by_items(a: Seq<Seq<char>>, b: Seq<Seq<char>>)
    requires
        texts_sorted(a),
        texts_sorted(b),
        a.to_multiset() == b.to_multiset(),
    ensures
        a == b,
    decreases a.len(),
{
    broadcast use vstd::seq_lib::group_to_multiset_ensures;
    assert(a.len() == a.to_multiset().len());
    assert(b.len() == b.to_multiset().len());
    if a.len() > 0 {
        let x = a[0];
        let y = b[0];
        assert(b.to_multiset().count(y) > 0) by {
            assert(b.contains(y));
        }
        assert(a.contains(y));
        let j = choose|j: int| 0 <= j < a.len() && a[j] == y;
        assert(a.to_multiset().count(x) > 0) by {
            assert(a.contains(x));
        }
        assert(b.contains(x));
        let k = choose|k: int| 0 <= k < b.len() && b[k] == x;
        if j > 0 {
            assert(!text_less(a[j], a[0]));
        }
        if k > 0 {
            assert(!text_less(b[k], b[0]));
        }
        lemma_text_less_asymmetric(x, y);
        lemma_text_less_total(x, y);
        assert(x == y);
        let a1 = a.drop_first();
        let b1 = b.drop_first();
        assert(a.remove(0) =~= a1);
        assert(b.remove(0) =~= b1);
        vstd::seq_lib::to_multiset_remove(a, 0);
        vstd::seq_lib::to_multiset_remove(b, 0);
        assert forall|i: int, l: int| 0 <= i < l < a1.len() implies !text_less(a1[l], a1[i]) by {
            assert(a1[l] == a[l + 1] && a1[i] == a[i + 1]);
        }
        assert forall|i: int, l: int| 0 <= i < l < b1.len() implies !text_less(b1[l], b1[i]) by {
            assert(b1[l] == b[l + 1] && b1[i] == b[i + 1]);
        }
        law_sorted_texts_fixed_by_items(a1, b1);
        assert(a =~= b) by {
            assert forall|i: int| 0 <= i < a.len() implies a[i] == b[i] by {
                if i > 0 {
                    assert(a[i] == a1[i - 1] && b[i] == b1[i - 1]);
                }
            }
        }
    } else {
        assert(a =~= b);
    }
}

/// Law: in a sorted list every text is equal to or comes before every later
/// one.
pub proof fn law_sorted_is_ascending(t: Seq<Seq<char>>)
    requires
        texts_sorted(t),
    ensures
        forall|i: int, j: int| 0 <= i < j < t.len() ==> t[i] == t[j] || text_less(#[trigger] t[i], #[trigger] t[j]),
{
    assert forall|i: int, j: int| 0 <= i < j < t.len() implies t[i] == t[j] || text_less(#[trigger] t[i], #[trigger] t[j]) by {
        lemma_text_less_total(t[i], t[j]);
    }
}

/// The names in ascending order, as `sort` on a `Vec<String>` leaves them:
/// the same texts, each as many times, and none before an earlier one.
pub fn sort_texts(names: &Vec<String>) -> (r: Vec<String>)
    ensures
        texts_sorted(texts(r@)),
        texts(r@).to_multiset() == texts(names@).to_multiset(),
{
    let mut r: Vec<String> = Vec::new();
    let n = names.len();
    let mut i: usize = 0;
    assert(texts(names@.take(0)) =~= texts(r@));
    while i < n
        invariant
            n == names.len(),
            i <= n,
            texts_sorted(texts(r@)),
            texts(r@).to_multiset() == texts(names@.take(i as int)).to_multiset(),
        decreases n - i,
    {
        let x = names[i].clone();
        let mut p: usize = 0;
        while p < r.len() && !less_text(x.as_str(), r[p].as_str())
            invariant
                p <= r.len(),
                forall|k: int| 0 <= k < p ==> !text_less(x@, #[trigger] r@[k]@),
            decreases r.len() - p,
        {
            p = p + 1;
        }
        let ghost old_r = r@;
        r.insert(p, x);
        proof {
            assert(texts(r@) =~= texts(old_r).insert(p as int, x@));
            let t = texts(r@);
            let o = texts(old_r);
            assert(p < old_r.len() ==> text_less(x@, o[p as int]));
            assert forall|k: int| 0 <= k < p implies !text_less(x@, #[trigger] o[k]) by {
                assert(o[k] == old_r[k]@);
            }
            assert forall|a: int, b: int| 0 <= a < b < t.len() implies !text_less(t[b], t[a]) by {
                if a < p && b == p {
                    assert(t[b] == x@);
                    assert(t[a] == o[a]);
                    assert(!text_less(x@, o[a]));
                } else if a == p && b > p {
                    assert(t[a] == x@);
                    assert(t[b] == o[b - 1]);
                    if p < b - 1 {
                        assert(!text_less(o[b - 1], o[p as int]));
                        lemma_text_less_total(o[p as int], o[b - 1]);
                        if o[p as int] != o[b - 1] {
                            lemma_text_less_transitive(x@, o[p as int], o[b - 1]);
                        }
                    }
                    lemma_text_less_asymmetric(x@, o[b - 1]);
                } else if b < p {
                    assert(t[a] == o[a]);
                    assert(t[b] == o[b]);
                } else if a < p && b > p {
                    assert(t[a] == o[a]);
                    assert(t[b] == o[b - 1]);
                } else {
                    assert(t[a] == o[a - 1]);
                    assert(t[b] == o[b - 1]);
                }
            }
            vstd::seq_lib::to_multiset_insert(texts(old_r), p as int, x@);
            assert(texts(names@.take(i + 1)) =~= texts(names@.take(i as int)).push(x@));
            vstd::seq_lib::to_multiset_build(texts(names@.take(i as int)), x@);
        }
        i = i + 1;
    }
    assert(names@.take(n as int) =~= names@);
    r
}

/// The decimal digit character of `d`.
pub open spec fn digit_char(d: int) -> char {
    if d == 0 { '0' }
    else if d == 1 { '1' }
    else if d == 2 { '2' }
    else if d == 3 { '3' }
    else if d == 4 { '4' }
    else if d == 5 { '5' }
    else if d == 6 { '6' }
    else if d == 7 { '7' }
    else if d == 8 { '8' }
    else { '9' }
}

/// The decimal writing of `n`, without leading zeros.
pub open spec fn decimal(n: nat) -> Seq<char>
    decreases n,
{
    if n < 10 {
        seq![digit_char(n as int)]
    } else {
        decimal(n / 10).push(digit_char((n % 10) as int))
    }
}

fn digit_text(d: u32) -> (r: &'static str)
    requires
        d < 10,
    ensures
        r@ == seq![digit_char(d as int)],
{
    match d {
        0 => { proof { reveal_strlit("0"); } assert("0"@ =~= seq!['0']); "0" },
        1 => { proof { reveal_strlit("1"); } assert("1"@ =~= seq!['1']); "1" },
        2 => { proof { reveal_strlit("2"); } assert("2"@ =~= seq!['2']); "2" },
        3 => { proof { reveal_strlit("3"); } assert("3"@ =~= seq!['3']); "3" },
        4 => { proof { reveal_strlit("4"); } assert("4"@ =~= seq!['4']); "4" },
        5 => { proof { reveal_strlit("5"); } assert("5"@ =~= seq!['5']); "5" },
        6 => { proof { reveal_strlit("6"); } assert("6"@ =~= seq!['6']); "6" },
        7 => { proof { reveal_strlit("7"); } assert("7"@ =~= seq!['7']); "7" },
        8 => { proof { reveal_strlit("8"); } assert("8"@ =~= seq!['8']); "8" },
        _ => { proof { reveal_strlit("9"); } assert("9"@ =~= seq!['9']); "9" },
    }
}

pub proof fn lemma_decimal_not_empty(n: nat)
    ensures
        decimal(n).len() > 0,
    decreases n,
{
    if n >= 10 {
        lemma_decimal_not_empty(n / 10);
    }
}

/// The number that a string of decimal digits writes.
pub open spec fn digits_value(s: Seq<char>) -> int
    decreases s.len(),
{
    if s.len() == 0 {
        0
    } else {
        10 * digits_value(s.drop_last()) + ((s.last() as int) - ('0' as int))
    }
}

proof fn lemma_digit_char_value(d: int)
    requires
        0 <= d < 10,
    ensures
        (digit_char(d) as int) - ('0' as int) == d,
        '0' <= digit_char(d) <= '9',
{
}

/// Law: the decimal writing of `n` is made of the digits '0' to '9', starts
/// with '0' only where it is "0", and the digits write `n`.
pub proof fn law_decimal_writes_the_number(n: nat)
    ensures
        forall|i: int| 0 <= i < decimal(n).len() ==> '0' <= #[trigger] decimal(n)[i] <= '9',
        decimal(n).len() > 0,
        decimal(n)[0] == '0' ==> n == 0,
        digits_value(decimal(n)) == n,
    decreases n,
{
    if n < 10 {
        lemma_digit_char_value(n as int);
        assert(decimal(n).drop_last() =~= Seq::<char>::empty());
        assert(digits_value(Seq::<char>::empty()) == 0);
        assert(decimal(n).last() == digit_char(n as int));
    }
    if n >= 10 {
        lemma_digit_char_value((n % 10) as int);
        vstd::arithmetic::div_mod::lemma_fundamental_div_mod(n as int, 10);
        law_decimal_writes_the_number(n / 10);
        let d = decimal(n / 10);
        let s = decimal(n);
        assert(s == d.push(digit_char((n % 10) as int)));
        assert(s.drop_last() =~= d);
        assert forall|i: int| 0 <= i < s.len() implies '0' <= #[trigger] s[i] <= '9' by {
            if i < d.len() {
                assert(s[i] == d[i]);
            }
        }
        assert(s[0] == d[0]);
        assert(s.last() == digit_char((n % 10) as int));
        assert(digits_value(s) == 10 * digits_value(d) + ((s.last() as int) - ('0' as int)));
        assert(digits_value(d) == n / 10);
        assert(n == 10 * (n / 10) + n % 10);
    }
}

/// Appends the decimal writing of `n` to `s`.
pub fn push_decimal(s: &mut String, n: u32)
    ensures
        final(s)@ == old(s)@ + decimal(n as nat),
    decreases n,
{
    if n >= 10 {
        push_decimal(s, n / 10);
    }
    s.append(digit_text(n % 10));
    assert(s@ =~= old(s)@ + decimal(n as nat));
}

/// What `String::from_utf16_lossy` gives for a sequence of UTF-16 code
/// units: their decoding, with U+FFFD in place of each invalid unit.
pub uninterp spec fn utf16_lossy(units: Seq<u16>) -> Seq<char>;

/// Calls `String::from_utf16_lossy`; the result is `utf16_lossy` of the
/// units, and it is not empty where the units are not: each unit, or pair of
/// units, decodes to one character or to U+FFFD.
#[verifier::external_body]
pub(crate) fn decode_utf16_lossy(units: &[u16]) -> (r: String)
    ensures
        r@ == utf16_lossy(units@),
        units@.len() > 0 ==> r@.len() > 0,
{
    String::from_utf16_lossy(units)
}

} // verus!
