//! The HTML index of a directory without `index.html`: which entries it
//! shows, in which order, and the page itself.

use vstd::prelude::*;
use crate::text::{code_point, trim_leading, ends_with_char, chars_of, leading_run, string_from_range, push_char, append_str, append_chars, vec_eq};
use crate::patterns::{glob_hits, ignored, law_ignore_excludes, string_views, matches_ignore};

verus! {

/// One entry read from a directory.
#[derive(Debug, Clone)]
pub struct DirEntry {
    /// The entry's file name.
    pub name: String,
    /// Whether the entry is a directory.
    pub is_dir: bool,
}

/// An entry as a name and a directory flag.
pub type EntryView = (Seq<char>, bool);

/// The views of directory entries.
pub open spec fn entry_views(v: Seq<DirEntry>) -> Seq<EntryView> {
    v.map_values(|e: DirEntry| (e.name@, e.is_dir))
}

/// `a` comes before `b` in code point order, comparing from position `i` on
/// (the order of `str`'s `cmp`, which compares UTF-8 bytes).
pub open spec fn name_lt_at(a: Seq<char>, b: Seq<char>, i: int) -> bool
    decreases a.len() - i,
{
    if i < 0 || i >= a.len() {
        0 <= i < b.len()
    } else if i >= b.len() {
        false
    } else if a[i] != b[i] {
        (a[i] as int) < (b[i] as int)
    } else {
        name_lt_at(a, b, i + 1)
    }
}

/// `a` comes before `b` in code point order.
pub open spec fn name_lt(a: Seq<char>, b: Seq<char>) -> bool {
    name_lt_at(a, b, 0)
}

/// `a` is listed before `b`: directories first, then by name.
pub open spec fn entry_before(a: EntryView, b: EntryView) -> bool {
    (a.1 && !b.1) || (a.1 == b.1 && name_lt(a.0, b.0))
}

/// `s` is in listing order: no entry comes before one listed earlier.
pub open spec fn listing_sorted(s: Seq<EntryView>) -> bool {
    forall|i: int, j: int| 0 <= i < j < s.len() ==> !entry_before(#[trigger] s[j], #[trigger] s[i])
}

/// Where `x` goes among the sorted entries `s`: before the first entry that
/// it comes before, after all others.
pub open spec fn insert_pos(s: Seq<EntryView>, x: EntryView) -> int
    decreases s.len(),
{
    if s.len() == 0 {
        0
    } else if entry_before(x, s[0]) {
        0
    } else {
        1 + insert_pos(s.drop_first(), x)
    }
}

/// The entries `s` in listing order (sorted stably, as the listing sorts them).
pub open spec fn sort_entries(s: Seq<EntryView>) -> Seq<EntryView>
    decreases s.len(),
{
    if s.len() == 0 {
        s
    } else {
        let sorted = sort_entries(s.drop_last());
        sorted.insert(insert_pos(sorted, s.last()), s.last())
    }
}

/// The path of the entry `name` below the directory shown at `virt`.
pub open spec fn child_path(virt: Seq<char>, name: Seq<char>) -> Seq<char> {
    if ends_with_char(virt, '/') {
        virt + name
    } else {
        virt.push('/') + name
    }
}

/// The entry `e` of the directory shown at `virt` is shown: the ignore
/// patterns do not exclude its path.
pub open spec fn shown(virt: Seq<char>, e: EntryView, patterns: Seq<Seq<char>>) -> bool {
    !ignored(trim_leading(child_path(virt, e.0), '/'), e.1, patterns)
}

/// The entries of `es` that are shown, in their order.
pub open spec fn shown_entries(virt: Seq<char>, es: Seq<EntryView>, patterns: Seq<Seq<char>>) -> Seq<EntryView>
    decreases es.len(),
{
    if es.len() == 0 {
        es
    } else {
        let rest = shown_entries(virt, es.drop_last(), patterns);
        if shown(virt, es.last(), patterns) {
            rest.push(es.last())
        } else {
            rest
        }
    }
}

/// The entries a listing of `virt` shows, in the order it shows them.
pub open spec fn listing_entries(virt: Seq<char>, es: Seq<EntryView>, patterns: Seq<Seq<char>>) -> Seq<EntryView> {
    sort_entries(shown_entries(virt, es, patterns))
}

/// The start of a listing page, up to the list.
pub open spec fn listing_head(virt: Seq<char>) -> Seq<char> {
    "<html><head><title>Index of "@ + virt
        + "</title><style>body{font-family:sans-serif;padding:20px;}ul{list-style:none;padding:0;}li{margin-bottom:10px;}a{text-decoration:none;color:#007bff;}a:hover{text-decoration:underline;}</style></head><body>"@
        + "<h1>Index of "@ + virt + "</h1><ul>"@
}

/// The link to the parent directory, shown everywhere but at the root.
pub open spec fn parent_link(virt: Seq<char>) -> Seq<char> {
    if virt == "/"@ {
        Seq::empty()
    } else {
        "<li><a href=\"..\">..</a></li>"@
    }
}

/// The slash that marks a directory.
pub open spec fn dir_suffix(is_dir: bool) -> Seq<char> {
    if is_dir {
        seq!['/']
    } else {
        Seq::empty()
    }
}

/// The list item of one entry: a link to it, labelled with its name.
pub open spec fn listing_item(e: EntryView) -> Seq<char> {
    "<li><a href=\""@ + e.0 + dir_suffix(e.1) + "\">"@ + e.0 + dir_suffix(e.1) + "</a></li>"@
}

/// The list items of the entries `es`, in order.
pub open spec fn listing_items(es: Seq<EntryView>) -> Seq<char>
    decreases es.len(),
{
    if es.len() == 0 {
        Seq::empty()
    } else {
        listing_items(es.drop_last()) + listing_item(es.last())
    }
}

/// The end of a listing page.
pub open spec fn listing_tail() -> Seq<char> {
    "</ul></body></html>"@
}

/// The listing page of `virt` showing the entries `es`.
pub open spec fn listing_page(virt: Seq<char>, es: Seq<EntryView>) -> Seq<char> {
    listing_head(virt) + parent_link(virt) + listing_items(es) + listing_tail()
}

// ---------------------------------------------------------------------------
// Laws of the listing order.

proof fn lemma_name_lt_irreflexive(a: Seq<char>, i: int)
    requires
        0 <= i,
    ensures
        !name_lt_at(a, a, i),
    decreases a.len() - i,
{
    if i < a.len() {
        lemma_name_lt_irreflexive(a, i + 1);
    }
}

proof fn lemma_name_lt_transitive(a: Seq<char>, b: Seq<char>, c: Seq<char>, i: int)
    requires
        0 <= i,
        name_lt_at(a, b, i),
        name_lt_at(b, c, i),
    ensures
        name_lt_at(a, c, i),
    decreases a.len() - i,
{
    if i < a.len() && i < b.len() && i < c.len() && a[i] == b[i] && b[i] == c[i] {
        lemma_name_lt_transitive(a, b, c, i + 1);
    }
}

proof fn lemma_name_lt_total(a: Seq<char>, b: Seq<char>, i: int)
    requires
        0 <= i <= a.len(),
        i <= b.len(),
        a.subrange(i, a.len() as int) != b.subrange(i, b.len() as int),
    ensures
        name_lt_at(a, b, i) || name_lt_at(b, a, i),
    decreases a.len() - i,
{
    if i < a.len() && i < b.len() && a[i] == b[i] {
        if a.subrange(i + 1, a.len() as int) == b.subrange(i + 1, b.len() as int) {
            assert(a.subrange(i, a.len() as int) =~= seq![a[i]] + a.subrange(i + 1, a.len() as int));
            assert(b.subrange(i, b.len() as int) =~= seq![b[i]] + b.subrange(i + 1, b.len() as int));
        }
        lemma_name_lt_total(a, b, i + 1);
    } else if i == a.len() && i == b.len() {
        assert(a.subrange(i, a.len() as int) =~= b.subrange(i, b.len() as int));
    } else if i < a.len() && i < b.len() {
        assert((a[i] as int) != (b[i] as int));
    }
}

/// No entry comes before itself.
pub proof fn lemma_entry_before_irreflexive(a: EntryView)
    ensures
        !entry_before(a, a),
{
    lemma_name_lt_irreflexive(a.0, 0);
}

/// Listing order is transitive.
pub proof fn lemma_entry_before_transitive(a: EntryView, b: EntryView, c: EntryView)
    requires
        entry_before(a, b),
        entry_before(b, c),
    ensures
        entry_before(a, c),
{
    if a.1 == b.1 && b.1 == c.1 {
        lemma_name_lt_transitive(a.0, b.0, c.0, 0);
    }
}

/// Of two different entries, one comes before the other.
pub proof fn lemma_entry_before_total(a: EntryView, b: EntryView)
    requires
        a != b,
    ensures
        entry_before(a, b) || entry_before(b, a),
{
    if a.1 == b.1 {
        assert(a.0 != b.0);
        assert(a.0.subrange(0, a.0.len() as int) =~= a.0);
        assert(b.0.subrange(0, b.0.len() as int) =~= b.0);
        lemma_name_lt_total(a.0, b.0, 0);
    }
}

proof fn lemma_insert_pos_bounds(s: Seq<EntryView>, x: EntryView)
    ensures
        0 <= insert_pos(s, x) <= s.len(),
        forall|j: int| 0 <= j < insert_pos(s, x) ==> !entry_before(x, #[trigger] s[j]),
        insert_pos(s, x) < s.len() ==> entry_before(x, s[insert_pos(s, x)]),
    decreases s.len(),
{
    if s.len() > 0 && !entry_before(x, s[0]) {
        lemma_insert_pos_bounds(s.drop_first(), x);
        assert forall|j: int| 0 <= j < insert_pos(s, x) implies !entry_before(x, #[trigger] s[j]) by {
            if j > 0 {
                assert(s[j] == s.drop_first()[j - 1]);
            }
        }
    }
}

proof fn lemma_insert_sorted(s: Seq<EntryView>, x: EntryView)
    requires
        listing_sorted(s),
    ensures
        listing_sorted(s.insert(insert_pos(s, x), x)),
{
    lemma_insert_pos_bounds(s, x);
    let p = insert_pos(s, x);
    let t = s.insert(p, x);
    assert forall|i: int, j: int| 0 <= i < j < t.len() implies !entry_before(#[trigger] t[j], #[trigger] t[i]) by {
        if j < p {
            assert(t[i] == s[i] && t[j] == s[j]);
        } else if j == p {
            assert(t[j] == x && t[i] == s[i]);
        } else if i == p {
            assert(t[i] == x && t[j] == s[j - 1]);
            assert(entry_before(x, s[p]));
            if entry_before(s[j - 1], x) {
                lemma_entry_before_transitive(s[j - 1], x, s[p]);
                if j - 1 == p {
                    lemma_entry_before_irreflexive(s[p]);
                }
            }
        } else if i < p {
            assert(t[i] == s[i] && t[j] == s[j - 1]);
        } else {
            assert(t[i] == s[i - 1] && t[j] == s[j - 1]);
        }
    }
}

/// The listing order holds the same entries as `s`, and is sorted:
/// directories first, then by name.
pub proof fn lemma_sort_entries(s: Seq<EntryView>)
    ensures
        listing_sorted(sort_entries(s)),
        sort_entries(s).to_multiset() == s.to_multiset(),
        sort_entries(s).len() == s.len(),
    decreases s.len(),
{
    broadcast use vstd::seq_lib::to_multiset_insert, vstd::seq_lib::to_multiset_build;
    if s.len() > 0 {
        let sorted = sort_entries(s.drop_last());
        lemma_sort_entries(s.drop_last());
        lemma_insert_pos_bounds(sorted, s.last());
        lemma_insert_sorted(sorted, s.last());
        assert(s.drop_last().push(s.last()) =~= s);
    }
}

proof fn lemma_sorted_unique(t1: Seq<EntryView>, t2: Seq<EntryView>)
    requires
        listing_sorted(t1),
        listing_sorted(t2),
        t1.to_multiset() == t2.to_multiset(),
    ensures
        t1 == t2,
    decreases t1.len(),
{
    broadcast use vstd::seq_lib::to_multiset_len, vstd::seq_lib::to_multiset_contains,
        vstd::seq_lib::to_multiset_remove;
    vstd::seq_lib::to_multiset_len(t1);
    vstd::seq_lib::to_multiset_len(t2);
    assert(t1.len() == t2.len());
    if t1.len() == 0 {
        assert(t1 =~= t2);
    } else {
        let a = t1[0];
        let b = t2[0];
        assert(t1.to_multiset().count(a) > 0);
        assert(t2.to_multiset().count(b) > 0);
        assert(t2.contains(a));
        assert(t1.contains(b));
        if a != b {
            let k = choose|k: int| 0 <= k < t2.len() && t2[k] == a;
            let m = choose|m: int| 0 <= m < t1.len() && t1[m] == b;
            lemma_entry_before_total(a, b);
            if entry_before(a, b) {
                // b is first in t2 although a, later in t2, comes before it.
                assert(k > 0);
                assert(!entry_before(t2[k], t2[0]));
            } else {
                assert(m > 0);
                assert(!entry_before(t1[m], t1[0]));
            }
        }
        assert(t1.remove(0).to_multiset() == t1.to_multiset().remove(a));
        assert(t2.remove(0).to_multiset() == t2.to_multiset().remove(b));
        assert(t1.remove(0) =~= t1.drop_first());
        assert(t2.remove(0) =~= t2.drop_first());
        assert forall|i: int, j: int| 0 <= i < j < t1.drop_first().len() implies !entry_before(
            #[trigger] t1.drop_first()[j],
            #[trigger] t1.drop_first()[i],
        ) by {
            assert(t1.drop_first()[j] == t1[j + 1] && t1.drop_first()[i] == t1[i + 1]);
        }
        assert forall|i: int, j: int| 0 <= i < j < t2.drop_first().len() implies !entry_before(
            #[trigger] t2.drop_first()[j],
            #[trigger] t2.drop_first()[i],
        ) by {
            assert(t2.drop_first()[j] == t2[j + 1] && t2.drop_first()[i] == t2[i + 1]);
        }
        lemma_sorted_unique(t1.drop_first(), t2.drop_first());
        assert(t1 =~= seq![a] + t1.drop_first());
        assert(t2 =~= seq![b] + t2.drop_first());
    }
}

/// The listing order does not depend on the order in which the directory's
/// entries were read: entries holding the same entries give the same listing.
pub proof fn law_listing_order_independent(s1: Seq<EntryView>, s2: Seq<EntryView>)
    requires
        s1.to_multiset() == s2.to_multiset(),
    ensures
        sort_entries(s1) == sort_entries(s2),
{
    lemma_sort_entries(s1);
    lemma_sort_entries(s2);
    lemma_sorted_unique(sort_entries(s1), sort_entries(s2));
}

proof fn lemma_shown_entries(virt: Seq<char>, es: Seq<EntryView>, patterns: Seq<Seq<char>>, e: EntryView)
    ensures
        shown_entries(virt, es, patterns).contains(e) <==> (es.contains(e) && shown(virt, e, patterns)),
    decreases es.len(),
{
    if es.len() > 0 {
        lemma_shown_entries(virt, es.drop_last(), patterns, e);
        let rest = shown_entries(virt, es.drop_last(), patterns);
        assert(es =~= es.drop_last().push(es.last()));
        if es.contains(e) {
            let k = choose|k: int| 0 <= k < es.len() && es[k] == e;
            if k < es.len() - 1 {
                assert(es.drop_last()[k] == e);
            }
        }
        if es.drop_last().contains(e) {
            let k = choose|k: int| 0 <= k < es.drop_last().len() && es.drop_last()[k] == e;
            assert(es[k] == e);
        }
        if shown(virt, es.last(), patterns) {
            assert(rest.push(es.last())[rest.len() as int] == es.last());
            if rest.contains(e) {
                let k = choose|k: int| 0 <= k < rest.len() && rest[k] == e;
                assert(rest.push(es.last())[k] == e);
            }
            if rest.push(es.last()).contains(e) {
                let k = choose|k: int| 0 <= k < rest.len() + 1 && rest.push(es.last())[k] == e;
                if k < rest.len() {
                    assert(rest[k] == e);
                }
            }
        }
    }
}

/// A directory listing shows exactly the entries that the ignore patterns do
/// not exclude, each as often as the directory holds it, directories first,
/// then by name.
pub proof fn law_listing_entries(virt: Seq<char>, es: Seq<EntryView>, patterns: Seq<Seq<char>>)
    ensures
        listing_sorted(listing_entries(virt, es, patterns)),
        listing_entries(virt, es, patterns).to_multiset() == shown_entries(virt, es, patterns).to_multiset(),
        forall|e: EntryView| #[trigger] shown_entries(virt, es, patterns).contains(e)
            <==> (es.contains(e) && shown(virt, e, patterns)),
{
    lemma_sort_entries(shown_entries(virt, es, patterns));
    assert forall|e: EntryView| #[trigger] shown_entries(virt, es, patterns).contains(e)
        <==> (es.contains(e) && shown(virt, e, patterns)) by {
        lemma_shown_entries(virt, es, patterns, e);
    }
}

/// An entry of the directory is in its listing exactly when the ignore
/// patterns do not exclude its path (relative, without leading slash); so a
/// subdirectory whose path followed by a slash some pattern matches is
/// hidden.
pub proof fn law_listing_hides_ignored(virt: Seq<char>, es: Seq<EntryView>, patterns: Seq<Seq<char>>, e: EntryView, i: int)
    requires
        0 <= i < patterns.len(),
    ensures
        listing_entries(virt, es, patterns).contains(e) <==> es.contains(e) && !ignored(
            trim_leading(child_path(virt, e.0), '/'),
            e.1,
            patterns,
        ),
        ({
            let p = trim_leading(child_path(virt, e.0), '/');
            p.len() > 0 && e.1 && glob_hits(patterns[i], p.push('/')) ==> !listing_entries(virt, es, patterns).contains(e)
        }),
{
    let sh = shown_entries(virt, es, patterns);
    let le = listing_entries(virt, es, patterns);
    law_listing_entries(virt, es, patterns);
    lemma_shown_entries(virt, es, patterns, e);
    sh.to_multiset_ensures();
    le.to_multiset_ensures();
    assert(le.contains(e) <==> le.to_multiset().count(e) > 0);
    assert(sh.contains(e) <==> sh.to_multiset().count(e) > 0);
    let p = trim_leading(child_path(virt, e.0), '/');
    if p.len() > 0 {
        law_ignore_excludes(p, e.1, patterns, i);
    }
}

// ---------------------------------------------------------------------------
// Computing a listing.

/// An entry with its name as characters.
struct Item {
    name: Vec<char>,
    is_dir: bool,
}

spec fn item_views(v: Seq<Item>) -> Seq<EntryView> {
    v.map_values(|it: Item| (it.name@, it.is_dir))
}

fn name_before(a: &Vec<char>, b: &Vec<char>) -> (r: bool)
    ensures
        r == name_lt(a@, b@),
{
    let mut i: usize = 0;
    while i < a.len() && i < b.len() && a[i] == b[i]
        invariant
            i <= a.len(),
            i <= b.len(),
            name_lt_at(a@, b@, 0) == name_lt_at(a@, b@, i as int),
        decreases a.len() - i,
    {
        i += 1;
    }
    if i >= a.len() {
        i < b.len()
    } else if i >= b.len() {
        false
    } else {
        code_point(a[i]) < code_point(b[i])
    }
}

fn item_before(a: &Item, b: &Item) -> (r: bool)
    ensures
        r == entry_before((a.name@, a.is_dir), (b.name@, b.is_dir)),
{
    (a.is_dir && !b.is_dir) || (a.is_dir == b.is_dir && name_before(&a.name, &b.name))
}

proof fn lemma_insert_pos_step(s: Seq<EntryView>, x: EntryView, i: int)
    requires
        0 <= i <= s.len(),
        forall|j: int| 0 <= j < i ==> !entry_before(x, #[trigger] s[j]),
    ensures
        i < s.len() && entry_before(x, s[i]) ==> insert_pos(s, x) == i,
        i == s.len() ==> insert_pos(s, x) == i,
    decreases i,
{
    if i > 0 {
        assert forall|j: int| 0 <= j < i - 1 implies !entry_before(x, #[trigger] s.drop_first()[j]) by {
            assert(s.drop_first()[j] == s[j + 1]);
        }
        lemma_insert_pos_step(s.drop_first(), x, i - 1);
        assert(!entry_before(x, s[0]));
        if i < s.len() {
            assert(s.drop_first()[i - 1] == s[i]);
        }
    }
}

fn insert_in_order(sorted: &mut Vec<Item>, x: Item)
    ensures
        item_views(final(sorted)@) == item_views(old(sorted)@).insert(
            insert_pos(item_views(old(sorted)@), (x.name@, x.is_dir)),
            (x.name@, x.is_dir),
        ),
{
    let ghost s = item_views(sorted@);
    let ghost xv = (x.name@, x.is_dir);
    let mut i: usize = 0;
    while i < sorted.len() && !item_before(&x, &sorted[i])
        invariant
            i <= sorted.len(),
            s == item_views(sorted@),
            xv == (x.name@, x.is_dir),
            forall|j: int| 0 <= j < i ==> !entry_before(xv, #[trigger] s[j]),
        decreases sorted.len() - i,
    {
        assert(s[i as int] == (sorted@[i as int].name@, sorted@[i as int].is_dir));
        i += 1;
    }
    proof {
        if i < sorted.len() {
            assert(s[i as int] == (sorted@[i as int].name@, sorted@[i as int].is_dir));
        }
        lemma_insert_pos_step(s, xv, i as int);
    }
    sorted.insert(i, x);
    assert(item_views(sorted@) =~= s.insert(i as int, xv));
}

/// The path, relative and without leading slash, that the ignore patterns
/// are matched against for the entry `name` of the directory shown at `virt`.
fn child_rel_path(virt: &Vec<char>, name: &String) -> (r: String)
    ensures
        r@ == trim_leading(child_path(virt@, name@), '/'),
{
    let mut full: Vec<char> = virt.clone();
    assert(full@ == virt@);
    if !(full.len() > 0 && full[full.len() - 1] == '/') {
        full.push('/');
    }
    let name_chars = chars_of(name.as_str());
    let ghost before = full@;
    let mut i: usize = 0;
    while i < name_chars.len()
        invariant
            i <= name_chars.len(),
            full@ == before + name_chars@.subrange(0, i as int),
        decreases name_chars.len() - i,
    {
        full.push(name_chars[i]);
        i += 1;
        assert(full@ =~= before + name_chars@.subrange(0, i as int));
    }
    assert(name_chars@.subrange(0, name_chars@.len() as int) =~= name_chars@);
    assert(full@ == child_path(virt@, name@));
    let k = leading_run(&full, '/');
    string_from_range(&full, k, full.len())
}

/// The entries of a listing of `virt`, shown and in listing order.
fn ordered_entries(virt: &Vec<char>, entries: &Vec<DirEntry>, patterns: &Vec<String>) -> (r: Vec<Item>)
    ensures
        item_views(r@) == listing_entries(virt@, entry_views(entries@), string_views(patterns@)),
{
    let ghost es = entry_views(entries@);
    let ghost pats = string_views(patterns@);
    let mut sorted: Vec<Item> = Vec::new();
    let mut i: usize = 0;
    assert(es.take(0) =~= Seq::<EntryView>::empty());
    while i < entries.len()
        invariant
            i <= entries.len(),
            es == entry_views(entries@),
            pats == string_views(patterns@),
            item_views(sorted@) == sort_entries(shown_entries(virt@, es.take(i as int), pats)),
        decreases entries.len() - i,
    {
        let e = &entries[i];
        let ghost ev: EntryView = (e.name@, e.is_dir);
        assert(es[i as int] == ev);
        assert(es.take(i + 1).drop_last() =~= es.take(i as int));
        assert(es.take(i + 1).last() == ev);
        let rel = child_rel_path(virt, &e.name);
        if !matches_ignore(&rel, e.is_dir, patterns) {
            let ghost prev = shown_entries(virt@, es.take(i as int), pats);
            assert(shown_entries(virt@, es.take(i + 1), pats) == prev.push(ev));
            assert(prev.push(ev).drop_last() =~= prev);
            let item = Item { name: chars_of(e.name.as_str()), is_dir: e.is_dir };
            insert_in_order(&mut sorted, item);
        } else {
            assert(shown_entries(virt@, es.take(i + 1), pats) == shown_entries(virt@, es.take(i as int), pats));
        }
        i += 1;
    }
    assert(es.take(entries.len() as int) =~= es);
    sorted
}

/// Renders the index page of the directory shown at `virt_path` with the
/// directory's `entries`: the entries the ignore patterns do not exclude,
/// directories first, then by name.
pub fn render_directory_listing(virt_path: &String, entries: &Vec<DirEntry>, ignore_patterns: &Vec<String>) -> (html: String)
    ensures
        html@ == listing_page(
            virt_path@,
            listing_entries(virt_path@, entry_views(entries@), string_views(ignore_patterns@)),
        ),
{
    let virt = chars_of(virt_path.as_str());
    let items = ordered_entries(&virt, entries, ignore_patterns);
    let ghost es = item_views(items@);
    let mut html = String::new();
    append_str(&mut html, "<html><head><title>Index of ");
    append_chars(&mut html, &virt);
    append_str(
        &mut html,
        "</title><style>body{font-family:sans-serif;padding:20px;}ul{list-style:none;padding:0;}li{margin-bottom:10px;}a{text-decoration:none;color:#007bff;}a:hover{text-decoration:underline;}</style></head><body>",
    );
    append_str(&mut html, "<h1>Index of ");
    append_chars(&mut html, &virt);
    append_str(&mut html, "</h1><ul>");
    assert(html@ == listing_head(virt@));
    if !vec_eq(&virt, &chars_of("/")) {
        append_str(&mut html, "<li><a href=\"..\">..</a></li>");
    }
    let ghost start = html@;
    assert(start == listing_head(virt@) + parent_link(virt@));
    let mut i: usize = 0;
    assert(es.take(0) =~= Seq::<EntryView>::empty());
    while i < items.len()
        invariant
            i <= items.len(),
            es == item_views(items@),
            html@ == start + listing_items(es.take(i as int)),
        decreases items.len() - i,
    {
        let it = &items[i];
        assert(es[i as int] == (it.name@, it.is_dir));
        assert(es.take(i + 1).drop_last() =~= es.take(i as int));
        append_str(&mut html, "<li><a href=\"");
        append_chars(&mut html, &it.name);
        if it.is_dir {
            push_char(&mut html, '/');
        }
        append_str(&mut html, "\">");
        append_chars(&mut html, &it.name);
        if it.is_dir {
            push_char(&mut html, '/');
        }
        append_str(&mut html, "</a></li>");
        assert(html@ =~= start + listing_items(es.take(i + 1)));
        i += 1;
    }
    append_str(&mut html, "</ul></body></html>");
    assert(es.take(items.len() as int) =~= es);
    html
}

} // verus!
