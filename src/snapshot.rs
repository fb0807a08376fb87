//! Snapshots: how they are named, which directory entries belong to an item
//! and in what order, and what a backup writes.
use vstd::prelude::*;
use crate::text::{
    base_name, decimal, format_decimal, has_prefix, join_of, join_path, push_char, starts_with,
    base_name_of,
};
use crate::error::SyncError;
use crate::model::{SyncItem, SyncItemView};

verus! {

/// What a directory entry is.
#[derive(Debug, Clone, Copy, PartialEq, Eq, Structural)]
pub enum EntryKind {
    File,
    Directory,
    /// Neither a regular file nor a directory (a dangling link, a device).
    Other,
}

/// One entry of a directory as the caller observed it: its name, its kind
/// and its last-modified time in nanoseconds from the Unix epoch (negative
/// before it).
#[derive(Debug, Clone)]
pub struct DirEntryInfo {
    pub name: String,
    pub kind: EntryKind,
    pub modified: i128,
}

pub struct EntryView {
    pub name: Seq<char>,
    pub kind: EntryKind,
    pub modified: int,
}

impl View for DirEntryInfo {
    type V = EntryView;

    open spec fn view(&self) -> EntryView {
        EntryView { name: self.name@, kind: self.kind, modified: self.modified as int }
    }
}

impl DirEntryInfo {
    /// A field-by-field copy.
    pub fn copied(&self) -> (r: DirEntryInfo)
        ensures
            r@ == self@,
    {
        DirEntryInfo { name: self.name.clone(), kind: self.kind, modified: self.modified }
    }
}

/// The views of a sequence of entries.
pub open spec fn entries_view(s: Seq<DirEntryInfo>) -> Seq<EntryView> {
    s.map_values(|e: DirEntryInfo| e@)
}

/// The text that starts the name of every snapshot of `item_name`.
pub open spec fn snapshot_prefix(item_name: Seq<char>) -> Seq<char> {
    item_name.push('_')
}

/// The name of the snapshot of `item_name` taken at `timestamp` (Unix seconds).
pub open spec fn snapshot_name_of(item_name: Seq<char>, timestamp: nat) -> Seq<char> {
    snapshot_prefix(item_name) + decimal(timestamp)
}

/// Names the snapshot of `item_name` taken at `timestamp`: `{item_name}_{timestamp}`.
pub fn snapshot_name(item_name: &str, timestamp: u64) -> (r: String)
    ensures
        r@ == snapshot_name_of(item_name@, timestamp as nat),
{
    let mut r = item_name.to_string();
    push_char(&mut r, '_');
    let digits = format_decimal(timestamp);
    r.append(digits.as_str());
    r
}

/// Whether the entry is a snapshot of `item_name`: a directory whose name
/// starts with `{item_name}_`.
pub open spec fn is_snapshot_of(e: EntryView, item_name: Seq<char>) -> bool {
    e.kind == EntryKind::Directory && has_prefix(e.name, snapshot_prefix(item_name))
}

/// Tests whether the entry is a snapshot of `item_name`.
pub fn belongs_to(e: &DirEntryInfo, item_name: &str) -> (r: bool)
    ensures
        r == is_snapshot_of(e@, item_name@),
{
    if e.kind != EntryKind::Directory {
        return false;
    }
    let mut prefix = item_name.to_string();
    push_char(&mut prefix, '_');
    starts_with(e.name.as_str(), prefix.as_str())
}

/// Whether the name `a` sorts before the name `b`: character by character,
/// by code point, a proper prefix first.
pub open spec fn name_before(a: Seq<char>, b: Seq<char>) -> bool
    decreases a.len(),
{
    if a.len() == 0 {
        b.len() > 0
    } else if b.len() == 0 {
        false
    } else if a[0] != b[0] {
        a[0] < b[0]
    } else {
        name_before(a.drop_first(), b.drop_first())
    }
}

proof fn lemma_name_before_irreflexive(a: Seq<char>)
    ensures
        !name_before(a, a),
    decreases a.len(),
{
    if a.len() > 0 {
        lemma_name_before_irreflexive(a.drop_first());
    }
}

proof fn lemma_name_before_transitive(a: Seq<char>, b: Seq<char>, c: Seq<char>)
    ensures
        name_before(a, b) && name_before(b, c) ==> name_before(a, c),
    decreases a.len(),
{
    if a.len() > 0 && b.len() > 0 && c.len() > 0 {
        lemma_name_before_transitive(a.drop_first(), b.drop_first(), c.drop_first());
    }
}

proof fn lemma_name_before_total(a: Seq<char>, b: Seq<char>)
    ensures
        a != b ==> name_before(a, b) || name_before(b, a),
    decreases a.len(),
{
    if a.len() == 0 && b.len() == 0 {
        assert(a =~= b);
    }
    if a.len() > 0 && b.len() > 0 && a[0] == b[0] {
        lemma_name_before_total(a.drop_first(), b.drop_first());
        if a.drop_first() == b.drop_first() {
            assert(a =~= seq![a[0]] + a.drop_first());
            assert(b =~= seq![b[0]] + b.drop_first());
        }
    }
}

/// Whether the entry `x` comes before `y` in a listing: it is newer, or as
/// new with a name that sorts first.
pub open spec fn precedes(x: EntryView, y: EntryView) -> bool {
    x.modified > y.modified || (x.modified == y.modified && name_before(x.name, y.name))
}

proof fn lemma_precedes_order(x: EntryView, y: EntryView, z: EntryView)
    ensures
        !precedes(x, x),
        precedes(x, y) && precedes(y, z) ==> precedes(x, z),
        x.kind == y.kind && x != y ==> precedes(x, y) || precedes(y, x),
{
    lemma_name_before_irreflexive(x.name);
    lemma_name_before_transitive(x.name, y.name, z.name);
    lemma_name_before_total(x.name, y.name);
}

/// Tests whether the entry `x` comes before `y` in a listing.
fn comes_before(x: &DirEntryInfo, y: &DirEntryInfo) -> (r: bool)
    ensures
        r == precedes(x@, y@),
{
    if x.modified != y.modified {
        return x.modified > y.modified;
    }
    let a = x.name.as_str();
    let b = y.name.as_str();
    let n = a.unicode_len();
    let m = b.unicode_len();
    let mut i: usize = 0;
    assert(a@.subrange(0, n as int) =~= a@);
    assert(b@.subrange(0, m as int) =~= b@);
    while i < n && i < m
        invariant
            i <= n,
            i <= m,
            n == a@.len(),
            m == b@.len(),
            a@ == x.name@,
            b@ == y.name@,
            x.modified == y.modified,
            name_before(a@, b@) == name_before(a@.subrange(i as int, n as int), b@.subrange(i as int, m as int)),
        decreases n - i,
    {
        let c = a.get_char(i);
        let d = b.get_char(i);
        assert(a@.subrange(i as int, n as int)[0] == c);
        assert(b@.subrange(i as int, m as int)[0] == d);
        if c != d {
            return c < d;
        }
        assert(a@.subrange(i as int, n as int).drop_first() =~= a@.subrange(i + 1, n as int));
        assert(b@.subrange(i as int, m as int).drop_first() =~= b@.subrange(i + 1, m as int));
        i = i + 1;
    }
    i == n && i < m
}

/// `e` placed into `s`, which is in listing order, after every entry that
/// `e` does not come before.
pub open spec fn insert_newest_first(s: Seq<EntryView>, e: EntryView) -> Seq<EntryView>
    decreases s.len(),
{
    if s.len() == 0 {
        seq![e]
    } else if precedes(e, s[0]) {
        seq![e] + s
    } else {
        seq![s[0]] + insert_newest_first(s.drop_first(), e)
    }
}

/// `s` in listing order: newest first, and among entries of the same time
/// by name.
pub open spec fn newest_first(s: Seq<EntryView>) -> Seq<EntryView>
    decreases s.len(),
{
    if s.len() == 0 {
        s
    } else {
        insert_newest_first(newest_first(s.drop_last()), s.last())
    }
}

/// The snapshots of `item_name` among `entries`, in listing order.
pub open spec fn snapshot_listing(entries: Seq<EntryView>, item_name: Seq<char>) -> Seq<EntryView> {
    newest_first(entries.filter(|e: EntryView| is_snapshot_of(e, item_name)))
}

/// No entry of `s` is followed by a newer one.
pub open spec fn is_newest_first(s: Seq<EntryView>) -> bool {
    forall|i: int, j: int| 0 <= i < j < s.len() ==> s[i].modified >= s[j].modified
}

/// No entry of `s` is followed by one that comes before it.
pub open spec fn is_in_listing_order(s: Seq<EntryView>) -> bool {
    forall|i: int, j: int| 0 <= i < j < s.len() ==> !precedes(s[j], s[i])
}

/// Where `insert_newest_first` places `e` in `s`.
pub open spec fn insert_position(s: Seq<EntryView>, e: EntryView) -> int
    decreases s.len(),
{
    if s.len() == 0 {
        0
    } else if precedes(e, s[0]) {
        0
    } else {
        1 + insert_position(s.drop_first(), e)
    }
}

proof fn lemma_insert_position(s: Seq<EntryView>, e: EntryView)
    ensures
        0 <= insert_position(s, e) <= s.len(),
        forall|j: int| 0 <= j < insert_position(s, e) ==> !precedes(e, #[trigger] s[j]),
        insert_position(s, e) < s.len() ==> precedes(e, s[insert_position(s, e)]),
        insert_newest_first(s, e) == s.insert(insert_position(s, e), e),
    decreases s.len(),
{
    if s.len() > 0 && !precedes(e, s[0]) {
        let t = s.drop_first();
        lemma_insert_position(t, e);
        assert forall|j: int| 0 <= j < insert_position(s, e) implies !precedes(e, #[trigger] s[j]) by {
            if j > 0 {
                assert(s[j] == t[j - 1]);
            }
        }
        assert(seq![s[0]] + t.insert(insert_position(t, e), e) =~= s.insert(insert_position(s, e), e));
    } else if s.len() > 0 {
        assert(seq![e] + s =~= s.insert(0, e));
    } else {
        assert(seq![e] =~= s.insert(0, e));
    }
}

/// Any position that lies after every entry that `e` does not come before,
/// and at an entry that `e` comes before, is where `insert_newest_first`
/// puts `e`.
proof fn lemma_insert_at(s: Seq<EntryView>, e: EntryView, p: int)
    requires
        0 <= p <= s.len(),
        forall|j: int| 0 <= j < p ==> !precedes(e, #[trigger] s[j]),
        p < s.len() ==> precedes(e, s[p]),
    ensures
        insert_newest_first(s, e) == s.insert(p, e),
{
    lemma_insert_position(s, e);
    let q = insert_position(s, e);
    if q < p {
        assert(!precedes(e, s[q]));
    } else if p < q {
        assert(!precedes(e, s[p]));
    }
}

/// Ordering for a listing keeps every entry, as often as it comes, and
/// leaves no entry followed by one that comes before it; so newer entries
/// come first.
pub proof fn lemma_newest_first_ordered(s: Seq<EntryView>)
    ensures
        is_in_listing_order(newest_first(s)),
        is_newest_first(newest_first(s)),
        newest_first(s).len() == s.len(),
        newest_first(s).to_multiset() == s.to_multiset(),
    decreases s.len(),
{
    broadcast use vstd::seq_lib::to_multiset_insert, vstd::seq_lib::to_multiset_build;

    if s.len() > 0 {
        assert(s.drop_last().push(s.last()) =~= s);
        let t = newest_first(s.drop_last());
        let e = s.last();
        lemma_newest_first_ordered(s.drop_last());
        lemma_insert_position(t, e);
        let p = insert_position(t, e);
        let u = t.insert(p, e);
        assert forall|i: int, j: int| 0 <= i < j < u.len() implies !precedes(u[j], u[i]) by {
            if j < p {
                assert(u[i] == t[i] && u[j] == t[j]);
            } else if j == p {
                assert(u[i] == t[i]);
            } else if i < p {
                assert(u[i] == t[i] && u[j] == t[j - 1]);
            } else if i == p {
                assert(u[j] == t[j - 1]);
                lemma_precedes_order(t[j - 1], e, t[p]);
                lemma_precedes_order(t[p], e, t[p]);
            } else {
                assert(u[i] == t[i - 1] && u[j] == t[j - 1]);
            }
        }
    }
    let l = newest_first(s);
    assert forall|i: int, j: int| 0 <= i < j < l.len() implies l[i].modified >= l[j].modified by {
        assert(!precedes(l[j], l[i]));
    }
}

proof fn lemma_filter_multiset(s: Seq<EntryView>, p: spec_fn(EntryView) -> bool)
    ensures
        forall|x: EntryView| #[trigger] s.filter(p).to_multiset().count(x) == if p(x) {
            s.to_multiset().count(x)
        } else {
            0
        },
    decreases s.len(),
{
    broadcast use vstd::seq_lib::to_multiset_build, vstd::seq_lib::to_multiset_contains,
        vstd::multiset::group_multiset_axioms;

    if s.len() == 0 {
        reveal(Seq::filter);
        assert(s.filter(p) =~= s);
    } else {
        let t = s.drop_last();
        lemma_filter_multiset(t, p);
        assert(t.push(s.last()) =~= s);
        t.lemma_filter_push(s.last(), p);
    }
}

/// Two sequences in listing order, of entries of one kind, that hold the
/// same entries as often are the same.
proof fn lemma_listing_order_unique(s: Seq<EntryView>, t: Seq<EntryView>, kind: EntryKind)
    requires
        is_in_listing_order(s),
        is_in_listing_order(t),
        s.to_multiset() == t.to_multiset(),
        forall|i: int| 0 <= i < s.len() ==> (#[trigger] s[i]).kind == kind,
    ensures
        s == t,
    decreases s.len(),
{
    broadcast use vstd::seq_lib::to_multiset_remove, vstd::seq_lib::to_multiset_contains,
        vstd::seq_lib::to_multiset_len;

    vstd::seq_lib::to_multiset_len(s);
    vstd::seq_lib::to_multiset_len(t);
    if s.len() == 0 {
        assert(t.len() == 0);
        assert(s =~= t);
    } else {
        assert(t.len() == s.len());
        let x = s[0];
        let y = t[0];
        assert(s.to_multiset().count(x) > 0);
        assert(t.contains(x));
        assert(t.to_multiset().count(y) > 0);
        assert(s.contains(y));
        if x != y {
            let k = choose|k: int| 0 <= k < t.len() && t[k] == x;
            let m = choose|m: int| 0 <= m < s.len() && s[m] == y;
            assert(!precedes(t[k], t[0]));
            assert(!precedes(s[m], s[0]));
            lemma_precedes_order(x, y, x);
        }
        assert(s.remove(0) =~= s.drop_first());
        assert(t.remove(0) =~= t.drop_first());
        assert forall|i: int| 0 <= i < s.drop_first().len() implies (#[trigger] s.drop_first()[i]).kind
            == kind by {
            assert(s.drop_first()[i] == s[i + 1]);
        }
        assert forall|i: int, j: int| 0 <= i < j < s.drop_first().len() implies !precedes(
            s.drop_first()[j],
            s.drop_first()[i],
        ) by {
            assert(s.drop_first()[i] == s[i + 1] && s.drop_first()[j] == s[j + 1]);
        }
        assert forall|i: int, j: int| 0 <= i < j < t.drop_first().len() implies !precedes(
            t.drop_first()[j],
            t.drop_first()[i],
        ) by {
            assert(t.drop_first()[i] == t[i + 1] && t.drop_first()[j] == t[j + 1]);
        }
        lemma_listing_order_unique(s.drop_first(), t.drop_first(), kind);
        assert(s =~= t) by {
            assert forall|i: int| 0 <= i < s.len() implies s[i] == t[i] by {
                if i > 0 {
                    assert(s[i] == s.drop_first()[i - 1]);
                    assert(t[i] == t.drop_first()[i - 1]);
                }
            }
        }
    }
}

/// The snapshot listing of an item is ordered by last-modified time, newest
/// first; it holds each of the item's snapshot directories among the
/// entries as often as they do, and nothing else. It depends on which
/// entries the backup root holds, not on the order in which they were
/// listed: two listings of an unchanged backup root agree.
pub proof fn lemma_snapshot_listing(entries: Seq<EntryView>, again: Seq<EntryView>, item_name: Seq<char>)
    requires
        again.to_multiset() == entries.to_multiset(),
    ensures
        is_newest_first(snapshot_listing(entries, item_name)),
        snapshot_listing(entries, item_name).to_multiset() == entries.filter(
            |e: EntryView| is_snapshot_of(e, item_name),
        ).to_multiset(),
        forall|k: int| 0 <= k < snapshot_listing(entries, item_name).len()
            ==> is_snapshot_of(#[trigger] snapshot_listing(entries, item_name)[k], item_name),
        snapshot_listing(again, item_name) == snapshot_listing(entries, item_name),
{
    broadcast use vstd::seq_lib::group_filter_ensures, vstd::seq_lib::to_multiset_contains;

    let pred = |e: EntryView| is_snapshot_of(e, item_name);
    let f = entries.filter(pred);
    let g = again.filter(pred);
    let l = snapshot_listing(entries, item_name);
    let l2 = snapshot_listing(again, item_name);
    lemma_newest_first_ordered(f);
    lemma_newest_first_ordered(g);
    assert forall|k: int| 0 <= k < l.len() implies is_snapshot_of(#[trigger] l[k], item_name) by {
        assert(l.contains(l[k]));
        assert(l.to_multiset().count(l[k]) > 0);
        assert(f.contains(l[k]));
        let j = choose|j: int| 0 <= j < f.len() && f[j] == l[k];
        assert(pred(f[j]));
    }
    lemma_filter_multiset(entries, pred);
    lemma_filter_multiset(again, pred);
    assert(f.to_multiset() =~= g.to_multiset());
    lemma_listing_order_unique(l, l2, EntryKind::Directory);
}

/// The snapshots of `item_name` among the entries of a backup root, newest
/// first by last-modified time; entries of equal time come in the order of
/// their names.
pub fn list_snapshots(item_name: &str, entries: &Vec<DirEntryInfo>) -> (r: Vec<DirEntryInfo>)
    ensures
        entries_view(r@) == snapshot_listing(entries_view(entries@), item_name@),
{
    let ghost pred = |e: EntryView| is_snapshot_of(e, item_name@);
    let mut r: Vec<DirEntryInfo> = Vec::new();
    let mut i: usize = 0;
    while i < entries.len()
        invariant
            i <= entries.len(),
            pred == (|e: EntryView| is_snapshot_of(e, item_name@)),
            entries_view(r@) == newest_first(entries_view(entries@.take(i as int)).filter(pred)),
        decreases entries.len() - i,
    {
        let ghost before = entries_view(entries@.take(i as int));
        proof {
            assert(entries_view(entries@.take(i + 1)) =~= before.push(entries@[i as int]@));
            before.lemma_filter_push(entries@[i as int]@, pred);
        }
        if belongs_to(&entries[i], item_name) {
            let e = entries[i].copied();
            let mut p: usize = 0;
            while p < r.len() && !comes_before(&e, &r[p])
                invariant
                    p <= r.len(),
                    forall|j: int| 0 <= j < p ==> !precedes(e@, #[trigger] r@[j]@),
                decreases r.len() - p,
            {
                p = p + 1;
            }
            let ghost old_r = entries_view(r@);
            proof {
                assert forall|j: int| 0 <= j < p implies !precedes(e@, #[trigger] old_r[j]) by {
                    assert(old_r[j] == r@[j]@);
                }
                if p < r.len() {
                    assert(old_r[p as int] == r@[p as int]@);
                }
                lemma_insert_at(old_r, e@, p as int);
                let fs = before.filter(pred);
                assert(before.push(entries@[i as int]@).filter(pred) == fs.push(e@));
                assert(fs.push(e@).drop_last() =~= fs);
            }
            r.insert(p, e);
            assert(entries_view(r@) =~= old_r.insert(p as int, e@));
        }
        i = i + 1;
    }
    assert(entries@.take(entries.len() as int) =~= entries@);
    r
}

/// The newest snapshot of `item_name` among the entries of a backup root.
pub fn latest_snapshot(item_name: &str, entries: &Vec<DirEntryInfo>) -> (r: Option<DirEntryInfo>)
    ensures
        snapshot_listing(entries_view(entries@), item_name@).len() == 0 <==> r is None,
        r matches Some(e) ==> e@ == snapshot_listing(entries_view(entries@), item_name@)[0],
{
    let all = list_snapshots(item_name, entries);
    if all.len() == 0 {
        None
    } else {
        assert(entries_view(all@)[0] == all@[0]@);
        Some(all[0].copied())
    }
}

/// The name under which a backup stores the source `p` inside its
/// snapshot: the source's last component, or `backup` where that is empty.
pub open spec fn stored_name_of(p: Seq<char>) -> Seq<char> {
    if base_name_of(p).len() > 0 {
        base_name_of(p)
    } else {
        seq!['b', 'a', 'c', 'k', 'u', 'p']
    }
}

/// The name under which a backup stores the source `p`.
pub fn stored_name(p: &str) -> (r: String)
    ensures
        r@ == stored_name_of(p@),
{
    let b = base_name(p);
    if b.as_str().unicode_len() > 0 {
        b
    } else {
        let d = "backup";
        proof {
            reveal_strlit("backup");
        }
        assert(d@ =~= seq!['b', 'a', 'c', 'k', 'u', 'p']);
        d.to_string()
    }
}

/// The copy that a backup makes.
#[derive(Debug, Clone)]
pub enum BackupCopy {
    /// Copy the file `from` to the new file `to`.
    File { from: String, to: String },
    /// Create the directory `to` and copy the contents of `from` into it,
    /// recursively.
    DirectoryContents { from: String, to: String },
}

/// What a backup of one item does: make sure `backup_root` exists, create
/// the fresh directory `snapshot_dir` (failing if it is already there:
/// snapshots are never written over), then make the copy.
#[derive(Debug, Clone)]
pub struct BackupPlan {
    pub backup_root: String,
    pub snapshot_dir: String,
    pub copy: BackupCopy,
}

/// The snapshot directory, in the backup root `item_backup_root`, of the
/// item `item_name` taken at `timestamp`.
pub open spec fn snapshot_dir_of(item_backup_root: Seq<char>, item_name: Seq<char>, timestamp: nat) -> Seq<char> {
    join_of(item_backup_root, snapshot_name_of(item_name, timestamp))
}

/// Whether `plan` is the backup of a source of kind `kind` at `source`,
/// for the item `name` with backup root `root`, taken at `timestamp`.
pub open spec fn is_backup_plan(
    plan: BackupPlan,
    name: Seq<char>,
    source: Seq<char>,
    root: Seq<char>,
    kind: EntryKind,
    timestamp: nat,
) -> bool {
    let dir = snapshot_dir_of(root, name, timestamp);
    &&& plan.backup_root@ == root
    &&& plan.snapshot_dir@ == dir
    &&& match plan.copy {
        BackupCopy::DirectoryContents { from, to } => kind == EntryKind::Directory && from@ == source
            && to@ == join_of(dir, stored_name_of(source)),
        BackupCopy::File { from, to } => kind != EntryKind::Directory && from@ == source && to@
            == join_of(dir, stored_name_of(source)),
    }
}

/// Whether `r` is the backup of `item` into the backup root `root` at
/// `timestamp`, given what is at its source path (`None`: nothing).
pub open spec fn is_backup_result(
    r: Result<BackupPlan, SyncError>,
    item: SyncItemView,
    root: Seq<char>,
    source: Option<EntryKind>,
    timestamp: nat,
) -> bool {
    match source {
        None => r matches Err(SyncError::NotFound { path }) && path@ == item.source_path,
        Some(kind) => r matches Ok(plan) && is_backup_plan(
            plan,
            item.name,
            item.source_path,
            root,
            kind,
            timestamp,
        ),
    }
}

/// Plans the backup of `item` into the backup root `backup_root` at
/// `timestamp` (Unix seconds), given what is at its source path now
/// (`None`: nothing). A directory is stored as one child of the snapshot
/// directory that bears the source's name; so is a file. A missing source is reported as not found, and nothing is done.
pub fn plan_backup(item: &SyncItem, backup_root: &str, source: Option<EntryKind>, timestamp: u64) -> (r: Result<
    BackupPlan,
    SyncError,
>)
    ensures
        is_backup_result(r, item@, backup_root@, source, timestamp as nat),
{
    match source {
        None => Err(SyncError::NotFound { path: item.source_path.clone() }),
        Some(kind) => {
            let name = snapshot_name(item.name.as_str(), timestamp);
            let dir = join_path(backup_root, name.as_str());
            let stored = stored_name(item.source_path.as_str());
            let to = join_path(dir.as_str(), stored.as_str());
            let copy = if kind == EntryKind::Directory {
                BackupCopy::DirectoryContents { from: item.source_path.clone(), to }
            } else {
                BackupCopy::File { from: item.source_path.clone(), to }
            };
            Ok(BackupPlan { backup_root: backup_root.to_string(), snapshot_dir: dir, copy })
        },
    }
}

} // verus!
