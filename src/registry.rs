//! The changes that the registry allows: adding, removing and switching
//! items and groups, moving items between groups, and keeping accounts and
//! script paths. The caller saves the registry after each change.
use vstd::prelude::*;
use crate::text::{join_of, join_path, trim, trim_of};
use crate::error::SyncError;
use crate::model::{
    group_names_distinct, groups_view, item_names_distinct, items_view, opt_is, Account, Config,
    SyncGroup, SyncGroupView, SyncItem, SyncItemView,
};

verus! {

proof fn lemma_items_push(s: Seq<SyncItemView>, v: SyncItemView)
    requires
        item_names_distinct(s),
        !has_item_named(s, v.name),
    ensures
        item_names_distinct(s.push(v)),
{
    assert forall|i: int, j: int| 0 <= i < j < s.push(v).len() implies s.push(v)[i].name != s.push(v)[j].name by {
        if j == s.len() {
            assert(s.push(v)[i] == s[i]);
        }
    }
}

proof fn lemma_items_remove(s: Seq<SyncItemView>, k: int)
    requires
        item_names_distinct(s),
        0 <= k < s.len(),
    ensures
        item_names_distinct(s.remove(k)),
{
    let t = s.remove(k);
    assert forall|i: int, j: int| 0 <= i < j < t.len() implies t[i].name != t[j].name by {
        let a = if i < k { i } else { i + 1 };
        let b = if j < k { j } else { j + 1 };
        assert(t[i] == s[a] && t[j] == s[b]);
    }
}

proof fn lemma_items_same_names(s: Seq<SyncItemView>, t: Seq<SyncItemView>)
    requires
        item_names_distinct(s),
        s.len() == t.len(),
        forall|i: int| 0 <= i < s.len() ==> (#[trigger] s[i]).name == t[i].name,
    ensures
        item_names_distinct(t),
{
    assert forall|i: int, j: int| 0 <= i < j < t.len() implies t[i].name != t[j].name by {
        assert(s[i].name == t[i].name && s[j].name == t[j].name);
    }
}

proof fn lemma_items_filter(s: Seq<SyncItemView>, p: spec_fn(SyncItemView) -> bool)
    requires
        item_names_distinct(s),
    ensures
        item_names_distinct(s.filter(p)),
    decreases s.len(),
{
    if s.len() == 0 {
        reveal(Seq::filter);
    } else {
        let t = s.drop_last();
        assert(item_names_distinct(t)) by {
            assert forall|i: int, j: int| 0 <= i < j < t.len() implies t[i].name != t[j].name by {
                assert(t[i] == s[i] && t[j] == s[j]);
            }
        }
        lemma_items_filter(t, p);
        assert(t.push(s.last()) =~= s);
        t.lemma_filter_push(s.last(), p);
        if p(s.last()) {
            let f = t.filter(p);
            assert forall|k: int| 0 <= k < f.len() implies (#[trigger] f[k]).name != s.last().name by {
                assert(f.contains(f[k]));
                t.lemma_filter_contains_rev(p, f[k]);
                let j = choose|j: int| 0 <= j < t.len() && t[j] == f[k];
                assert(t[j] == s[j]);
            }
            lemma_items_push(f, s.last());
        }
    }
}

proof fn lemma_groups_push(s: Seq<SyncGroupView>, v: SyncGroupView)
    requires
        group_names_distinct(s),
        !has_group_named(s, v.name),
    ensures
        group_names_distinct(s.push(v)),
{
    assert forall|i: int, j: int| 0 <= i < j < s.push(v).len() implies s.push(v)[i].name != s.push(v)[j].name by {
        if j == s.len() {
            assert(s.push(v)[i] == s[i]);
        }
    }
}

proof fn lemma_groups_remove(s: Seq<SyncGroupView>, k: int)
    requires
        group_names_distinct(s),
        0 <= k < s.len(),
    ensures
        group_names_distinct(s.remove(k)),
{
    let t = s.remove(k);
    assert forall|i: int, j: int| 0 <= i < j < t.len() implies t[i].name != t[j].name by {
        let a = if i < k { i } else { i + 1 };
        let b = if j < k { j } else { j + 1 };
        assert(t[i] == s[a] && t[j] == s[b]);
    }
}

proof fn lemma_groups_same_names(s: Seq<SyncGroupView>, t: Seq<SyncGroupView>)
    requires
        group_names_distinct(s),
        s.len() == t.len(),
        forall|i: int| 0 <= i < s.len() ==> (#[trigger] s[i]).name == t[i].name,
    ensures
        group_names_distinct(t),
{
    assert forall|i: int, j: int| 0 <= i < j < t.len() implies t[i].name != t[j].name by {
        assert(s[i].name == t[i].name && s[j].name == t[j].name);
    }
}

/// `a` and `b` agree but for their items.
pub open spec fn same_but_items(a: Config, b: Config) -> bool {
    &&& a.accounts == b.accounts
    &&& a.game_config_path == b.game_config_path
    &&& a.script_paths == b.script_paths
    &&& a.backup_dir == b.backup_dir
    &&& a.sync_groups == b.sync_groups
}

/// `a` and `b` agree but for their items and groups.
pub open spec fn same_but_items_and_groups(a: Config, b: Config) -> bool {
    &&& a.accounts == b.accounts
    &&& a.game_config_path == b.game_config_path
    &&& a.script_paths == b.script_paths
    &&& a.backup_dir == b.backup_dir
}

/// `a` and `b` agree but for their accounts.
pub open spec fn same_but_accounts(a: Config, b: Config) -> bool {
    &&& a.game_config_path == b.game_config_path
    &&& a.script_paths == b.script_paths
    &&& a.backup_dir == b.backup_dir
    &&& a.sync_items == b.sync_items
    &&& a.sync_groups == b.sync_groups
}

/// `a` and `b` agree but for their script paths.
pub open spec fn same_but_scripts(a: Config, b: Config) -> bool {
    &&& a.accounts == b.accounts
    &&& a.game_config_path == b.game_config_path
    &&& a.backup_dir == b.backup_dir
    &&& a.sync_items == b.sync_items
    &&& a.sync_groups == b.sync_groups
}

/// Whether an item of `items` is named `name`.
pub open spec fn has_item_named(items: Seq<SyncItemView>, name: Seq<char>) -> bool {
    exists|k: int| 0 <= k < items.len() && (#[trigger] items[k]).name == name
}

/// Whether a group of `groups` is named `name`.
pub open spec fn has_group_named(groups: Seq<SyncGroupView>, name: Seq<char>) -> bool {
    exists|k: int| 0 <= k < groups.len() && (#[trigger] groups[k]).name == name
}

fn find_item(items: &Vec<SyncItem>, name: &String) -> (r: bool)
    ensures
        r == has_item_named(items_view(items@), name@),
{
    let mut i: usize = 0;
    while i < items.len()
        invariant
            i <= items.len(),
            forall|k: int| 0 <= k < i ==> items@[k].name@ != name@,
        decreases items.len() - i,
    {
        if items[i].name == *name {
            assert(items_view(items@)[i as int].name == name@);
            return true;
        }
        i = i + 1;
    }
    assert forall|k: int| 0 <= k < items.len() implies (#[trigger] items_view(items@)[k]).name != name@ by {
        assert(items_view(items@)[k] == items@[k]@);
    }
    false
}

fn find_group(groups: &Vec<SyncGroup>, name: &String) -> (r: bool)
    ensures
        r == has_group_named(groups_view(groups@), name@),
{
    let mut i: usize = 0;
    while i < groups.len()
        invariant
            i <= groups.len(),
            forall|k: int| 0 <= k < i ==> groups@[k].name@ != name@,
        decreases groups.len() - i,
    {
        if groups[i].name == *name {
            assert(groups_view(groups@)[i as int].name == name@);
            return true;
        }
        i = i + 1;
    }
    assert forall|k: int| 0 <= k < groups.len() implies (#[trigger] groups_view(groups@)[k]).name != name@ by {
        assert(groups_view(groups@)[k] == groups@[k]@);
    }
    false
}

/// The item that `add_sync_item` registers.
pub open spec fn new_item(config: Config, name: Seq<char>, source: Seq<char>, group: Option<usize>) -> SyncItemView {
    let n = trim_of(name);
    SyncItemView {
        name: n,
        source_path: trim_of(source),
        backup_path: join_of(config.backup_dir@, n),
        is_enabled: true,
        group: match group {
            Some(g) => Some(config.sync_groups@[g as int].name@),
            None => None,
        },
    }
}

/// Registers a new enabled item named `name` for the source path `source`
/// (both trimmed), backed up under the backup directory joined with its
/// name, in the group at `group` if one is given. A source that does not
/// exist (`source_exists` false) is not found; a name already registered
/// is refused; a group index past the last group names nothing. On any of
/// these the registry stays as it was.
pub fn add_sync_item(
    config: &mut Config,
    name: &str,
    source: &str,
    source_exists: bool,
    group: Option<usize>,
) -> (r: Result<(), SyncError>)
    ensures
        !source_exists ==> (r matches Err(SyncError::NotFound { path }) && path@ == trim_of(source@)),
        source_exists && has_item_named(items_view(old(config).sync_items@), trim_of(name@))
            ==> (r matches Err(SyncError::AlreadyExists { name: n }) && n@ == trim_of(name@)),
        source_exists && !has_item_named(items_view(old(config).sync_items@), trim_of(name@))
            && (group matches Some(g) && g >= old(config).sync_groups.len())
            ==> r matches Err(SyncError::InvalidSelection),
        r is Err ==> *final(config) == *old(config),
        r is Ok ==> same_but_items(*final(config), *old(config)) && items_view(final(config).sync_items@)
            == items_view(old(config).sync_items@).push(new_item(*old(config), name@, source@, group)),
        source_exists && !has_item_named(items_view(old(config).sync_items@), trim_of(name@)) && (
        group matches Some(g) ==> g < old(config).sync_groups.len()) ==> r is Ok,
        old(config).wf() ==> final(config).wf(),
{
    let source_path = trim(source);
    if !source_exists {
        return Err(SyncError::NotFound { path: source_path });
    }
    let n = trim(name);
    if find_item(&config.sync_items, &n) {
        return Err(SyncError::AlreadyExists { name: n });
    }
    let g = match group {
        Some(gi) => {
            if gi >= config.sync_groups.len() {
                return Err(SyncError::InvalidSelection);
            }
            Some(config.sync_groups[gi].name.clone())
        },
        None => None,
    };
    let backup_path = join_path(config.backup_dir.as_str(), n.as_str());
    let item = SyncItem { name: n, source_path, backup_path, is_enabled: true, group: g };
    let ghost before = items_view(config.sync_items@);
    config.sync_items.push(item);
    assert(items_view(config.sync_items@) =~= before.push(new_item(*old(config), name@, source@, group)));
    proof {
        if old(config).wf() {
            lemma_items_push(before, new_item(*old(config), name@, source@, group));
        }
    }
    Ok(())
}

/// Removes the item at `index` and hands it back. Its snapshots stay where
/// they are.
pub fn remove_sync_item(config: &mut Config, index: usize) -> (r: Result<SyncItem, SyncError>)
    ensures
        index >= old(config).sync_items.len() ==> r matches Err(SyncError::InvalidSelection),
        r is Err ==> *final(config) == *old(config),
        index < old(config).sync_items.len() ==> (r matches Ok(item) && item == old(config).sync_items@[index as int]
            && same_but_items(*final(config), *old(config))
            && final(config).sync_items@ == old(config).sync_items@.remove(index as int)),
        old(config).wf() ==> final(config).wf(),
{
    if index >= config.sync_items.len() {
        return Err(SyncError::InvalidSelection);
    }
    let removed = config.sync_items.remove(index);
    proof {
        assert(items_view(final(config).sync_items@) =~= items_view(old(config).sync_items@).remove(
            index as int,
        ));
        if old(config).wf() {
            lemma_items_remove(items_view(old(config).sync_items@), index as int);
        }
    }
    Ok(removed)
}

/// Switches the item at `index` on or off, and returns whether it is now
/// enabled.
pub fn toggle_sync_item(config: &mut Config, index: usize) -> (r: Result<bool, SyncError>)
    ensures
        index >= old(config).sync_items.len() ==> (r matches Err(SyncError::InvalidSelection)
            && *final(config) == *old(config)),
        index < old(config).sync_items.len() ==> ({
            let was = old(config).sync_items@[index as int];
            &&& r == Ok::<bool, SyncError>(!was.is_enabled)
            &&& same_but_items(*final(config), *old(config))
            &&& final(config).sync_items@ == old(config).sync_items@.update(
                index as int,
                SyncItem { is_enabled: !was.is_enabled, ..was },
            )
        }),
        old(config).wf() ==> final(config).wf(),
{
    if index >= config.sync_items.len() {
        return Err(SyncError::InvalidSelection);
    }
    let mut item = config.sync_items.remove(index);
    item.is_enabled = !item.is_enabled;
    let now = item.is_enabled;
    config.sync_items.insert(index, item);
    proof {
        let was = old(config).sync_items@[index as int];
        assert(final(config).sync_items@ =~= old(config).sync_items@.update(
            index as int,
            SyncItem { is_enabled: !was.is_enabled, ..was },
        ));
        if old(config).wf() {
            lemma_items_same_names(items_view(old(config).sync_items@), items_view(final(config).sync_items@));
        }
    }
    Ok(now)
}

/// The group that `add_sync_group` registers.
pub open spec fn new_group(name: Seq<char>, description: Seq<char>) -> SyncGroupView {
    SyncGroupView {
        name: trim_of(name),
        description: if trim_of(description).len() == 0 {
            None
        } else {
            Some(trim_of(description))
        },
        is_enabled: true,
    }
}

/// Registers a new enabled group named `name`, described by `description`
/// unless that is blank (both trimmed). A name already registered is
/// refused and the registry stays as it was.
pub fn add_sync_group(config: &mut Config, name: &str, description: &str) -> (r: Result<(), SyncError>)
    ensures
        has_group_named(groups_view(old(config).sync_groups@), trim_of(name@)) ==> (r matches Err(
            SyncError::AlreadyExists { name: n },
        ) && n@ == trim_of(name@) && *final(config) == *old(config)),
        !has_group_named(groups_view(old(config).sync_groups@), trim_of(name@)) ==> (r is Ok
            && same_but_groups(*final(config), *old(config)) && groups_view(final(config).sync_groups@)
            == groups_view(old(config).sync_groups@).push(new_group(name@, description@))),
        old(config).wf() ==> final(config).wf(),
{
    let n = trim(name);
    if find_group(&config.sync_groups, &n) {
        return Err(SyncError::AlreadyExists { name: n });
    }
    let d = trim(description);
    let desc = if d.as_str().unicode_len() == 0 {
        None
    } else {
        Some(d)
    };
    let ghost before = groups_view(config.sync_groups@);
    config.sync_groups.push(SyncGroup { name: n, description: desc, is_enabled: true });
    assert(groups_view(config.sync_groups@) =~= before.push(new_group(name@, description@)));
    proof {
        if old(config).wf() {
            lemma_groups_push(before, new_group(name@, description@));
        }
    }
    Ok(())
}

/// `a` and `b` agree but for their groups.
pub open spec fn same_but_groups(a: Config, b: Config) -> bool {
    &&& a.accounts == b.accounts
    &&& a.game_config_path == b.game_config_path
    &&& a.script_paths == b.script_paths
    &&& a.backup_dir == b.backup_dir
    &&& a.sync_items == b.sync_items
}

/// Switches the group at `index` on or off, and returns whether it is now
/// enabled.
pub fn toggle_sync_group(config: &mut Config, index: usize) -> (r: Result<bool, SyncError>)
    ensures
        index >= old(config).sync_groups.len() ==> (r matches Err(SyncError::InvalidSelection)
            && *final(config) == *old(config)),
        index < old(config).sync_groups.len() ==> ({
            let was = old(config).sync_groups@[index as int];
            &&& r == Ok::<bool, SyncError>(!was.is_enabled)
            &&& same_but_groups(*final(config), *old(config))
            &&& final(config).sync_groups@ == old(config).sync_groups@.update(
                index as int,
                SyncGroup { is_enabled: !was.is_enabled, ..was },
            )
        }),
        old(config).wf() ==> final(config).wf(),
{
    if index >= config.sync_groups.len() {
        return Err(SyncError::InvalidSelection);
    }
    let mut g = config.sync_groups.remove(index);
    g.is_enabled = !g.is_enabled;
    let now = g.is_enabled;
    config.sync_groups.insert(index, g);
    proof {
        let was = old(config).sync_groups@[index as int];
        assert(final(config).sync_groups@ =~= old(config).sync_groups@.update(
            index as int,
            SyncGroup { is_enabled: !was.is_enabled, ..was },
        ));
        if old(config).wf() {
            lemma_groups_same_names(groups_view(old(config).sync_groups@), groups_view(final(config).sync_groups@));
        }
    }
    Ok(now)
}

/// What becomes of the members of a group that is removed.
#[derive(Debug, Clone, Copy, PartialEq, Eq, Structural)]
pub enum MemberPolicy {
    /// They stay, in no group.
    Ungroup,
    /// They are removed with it.
    Cascade,
}

/// `v` taken out of the group `name`, if it is in it.
pub open spec fn ungrouped(v: SyncItemView, name: Seq<char>) -> SyncItemView {
    if v.group == Some(name) {
        SyncItemView { group: None, ..v }
    } else {
        v
    }
}

/// The items once the group `name` is gone, under `policy`.
pub open spec fn items_without_group(items: Seq<SyncItemView>, name: Seq<char>, policy: MemberPolicy) -> Seq<SyncItemView> {
    match policy {
        MemberPolicy::Ungroup => items.map_values(|v: SyncItemView| ungrouped(v, name)),
        MemberPolicy::Cascade => items.filter(|v: SyncItemView| v.group != Some(name)),
    }
}

/// Removes the group at `index` and hands it back; its members are left
/// in no group or removed with it, as `policy` says.
pub fn remove_sync_group(config: &mut Config, index: usize, policy: MemberPolicy) -> (r: Result<SyncGroup, SyncError>)
    ensures
        index >= old(config).sync_groups.len() ==> (r matches Err(SyncError::InvalidSelection)
            && *final(config) == *old(config)),
        index < old(config).sync_groups.len() ==> ({
            let g = old(config).sync_groups@[index as int];
            &&& r matches Ok(removed) && removed == g
            &&& same_but_items_and_groups(*final(config), *old(config))
            &&& final(config).sync_groups@ == old(config).sync_groups@.remove(index as int)
            &&& items_view(final(config).sync_items@) == items_without_group(
                items_view(old(config).sync_items@),
                g.name@,
                policy,
            )
        }),
        old(config).wf() ==> final(config).wf(),
{
    if index >= config.sync_groups.len() {
        return Err(SyncError::InvalidSelection);
    }
    let ghost old_items = items_view(config.sync_items@);
    let name = config.sync_groups[index].name.clone();
    let ghost pred = |v: SyncItemView| v.group != Some(name@);
    let mut kept: Vec<SyncItem> = Vec::new();
    let mut i: usize = 0;
    while i < config.sync_items.len()
        invariant
            i <= config.sync_items.len(),
            old_items == items_view(config.sync_items@),
            pred == (|v: SyncItemView| v.group != Some(name@)),
            items_view(kept@) == items_without_group(old_items.take(i as int), name@, policy),
        decreases config.sync_items.len() - i,
    {
        let ghost before = old_items.take(i as int);
        proof {
            assert(old_items.take(i + 1) =~= before.push(old_items[i as int]));
            before.lemma_filter_push(old_items[i as int], pred);
        }
        let member = opt_is(&config.sync_items[i].group, name.as_str());
        assert(old_items[i as int] == config.sync_items@[i as int]@);
        match policy {
            MemberPolicy::Ungroup => {
                let mut c = config.sync_items[i].copied();
                if member {
                    c.group = None;
                }
                let ghost f = |v: SyncItemView| ungrouped(v, name@);
                assert(c@ == f(old_items[i as int]));
                assert(before.push(old_items[i as int]).map_values(f) =~= before.map_values(f).push(
                    f(old_items[i as int]),
                ));
                let ghost kept_before = items_view(kept@);
                kept.push(c);
                assert(items_view(kept@) =~= kept_before.push(c@));
                assert(items_view(kept@) =~= items_without_group(old_items.take(i + 1), name@, policy));
            },
            MemberPolicy::Cascade => {
                if !member {
                    let c = config.sync_items[i].copied();
                    kept.push(c);
                }
                assert(items_view(kept@) =~= items_without_group(old_items.take(i + 1), name@, policy));
            },
        }
        i = i + 1;
    }
    assert(old_items.take(old_items.len() as int) =~= old_items);
    config.sync_items = kept;
    let removed = config.sync_groups.remove(index);
    proof {
        assert(groups_view(final(config).sync_groups@) =~= groups_view(old(config).sync_groups@).remove(
            index as int,
        ));
        if old(config).wf() {
            lemma_groups_remove(groups_view(old(config).sync_groups@), index as int);
            match policy {
                MemberPolicy::Ungroup => {
                    lemma_items_same_names(old_items, items_view(final(config).sync_items@));
                },
                MemberPolicy::Cascade => {
                    lemma_items_filter(old_items, pred);
                },
            }
        }
    }
    Ok(removed)
}

/// Puts the item at `item_index` into the group at `group`, or into no
/// group for `None`.
pub fn assign_group_to_item(config: &mut Config, item_index: usize, group: Option<usize>) -> (r: Result<(), SyncError>)
    ensures
        (item_index >= old(config).sync_items.len() || (group matches Some(g) && g >= old(
            config,
        ).sync_groups.len())) ==> (r matches Err(SyncError::InvalidSelection) && *final(config)
            == *old(config)),
        (item_index < old(config).sync_items.len() && (group matches Some(g) ==> g < old(
            config,
        ).sync_groups.len())) ==> ({
            let was = old(config).sync_items@[item_index as int]@;
            &&& r is Ok
            &&& same_but_items(*final(config), *old(config))
            &&& final(config).sync_items.len() == old(config).sync_items.len()
            &&& forall|k: int| 0 <= k < old(config).sync_items.len() && k != item_index ==>
                #[trigger] final(config).sync_items@[k] == old(config).sync_items@[k]
            &&& final(config).sync_items@[item_index as int]@ == SyncItemView {
                group: match group {
                    Some(g) => Some(old(config).sync_groups@[g as int].name@),
                    None => None,
                },
                ..was
            }
        }),
        old(config).wf() ==> final(config).wf(),
{
    if item_index >= config.sync_items.len() {
        return Err(SyncError::InvalidSelection);
    }
    let g = match group {
        Some(gi) => {
            if gi >= config.sync_groups.len() {
                return Err(SyncError::InvalidSelection);
            }
            Some(config.sync_groups[gi].name.clone())
        },
        None => None,
    };
    let mut item = config.sync_items.remove(item_index);
    item.group = g;
    config.sync_items.insert(item_index, item);
    proof {
        assert forall|k: int| 0 <= k < old(config).sync_items.len() && k != item_index implies
            #[trigger] final(config).sync_items@[k] == old(config).sync_items@[k] by {
            if k < item_index {
            } else {
            }
        }
        if old(config).wf() {
            assert forall|i: int| 0 <= i < old(config).sync_items.len() implies (#[trigger] items_view(
                old(config).sync_items@,
            )[i]).name == items_view(final(config).sync_items@)[i].name by {
                assert(items_view(old(config).sync_items@)[i] == old(config).sync_items@[i]@);
                assert(items_view(final(config).sync_items@)[i] == final(config).sync_items@[i]@);
            }
            lemma_items_same_names(items_view(old(config).sync_items@), items_view(final(config).sync_items@));
        }
    }
    Ok(())
}

/// How many items of `items` are in the group `name`.
pub open spec fn member_count(items: Seq<SyncItemView>, name: Seq<char>) -> nat {
    items.filter(|v: SyncItemView| v.group == Some(name)).len()
}

/// Counts the items of `items` that are in the group `name`.
pub fn group_member_count(items: &Vec<SyncItem>, name: &str) -> (r: usize)
    ensures
        r as nat == member_count(items_view(items@), name@),
{
    let ghost pred = |v: SyncItemView| v.group == Some(name@);
    let ghost all = items_view(items@);
    let mut n: usize = 0;
    let mut i: usize = 0;
    while i < items.len()
        invariant
            i <= items.len(),
            all == items_view(items@),
            pred == (|v: SyncItemView| v.group == Some(name@)),
            n as nat == all.take(i as int).filter(pred).len(),
        decreases items.len() - i,
    {
        proof {
            assert(all.take(i + 1) =~= all.take(i as int).push(all[i as int]));
            all.take(i as int).lemma_filter_push(all[i as int], pred);
            all.take(i as int).lemma_filter_len(pred);
            assert(all[i as int] == items@[i as int]@);
        }
        if opt_is(&items[i].group, name) {
            n = n + 1;
        }
        i = i + 1;
    }
    assert(all.take(items.len() as int) =~= all);
    n
}

/// Keeps a new account; a blank `note` is kept as none.
pub fn add_account(config: &mut Config, username: String, password: String, note: String) -> (r: Result<(), SyncError>)
    ensures
        r is Ok,
        same_but_accounts(*final(config), *old(config)),
        final(config).accounts@ == old(config).accounts@.push(
            Account {
                username,
                password,
                note: if trim_of(note@).len() == 0 {
                    None
                } else {
                    Some(note)
                },
            },
        ),
        old(config).wf() ==> final(config).wf(),
{
    let t = trim(note.as_str());
    let n = if t.as_str().unicode_len() == 0 {
        None
    } else {
        Some(note)
    };
    config.accounts.push(Account { username, password, note: n });
    Ok(())
}

/// Removes the account at `index` and hands it back.
pub fn remove_account(config: &mut Config, index: usize) -> (r: Result<Account, SyncError>)
    ensures
        index >= old(config).accounts.len() ==> (r matches Err(SyncError::InvalidSelection)
            && *final(config) == *old(config)),
        index < old(config).accounts.len() ==> (r matches Ok(a) && a == old(config).accounts@[index as int]
            && same_but_accounts(*final(config), *old(config))
            && final(config).accounts@ == old(config).accounts@.remove(index as int)),
        old(config).wf() ==> final(config).wf(),
{
    if index >= config.accounts.len() {
        return Err(SyncError::InvalidSelection);
    }
    Ok(config.accounts.remove(index))
}

/// Keeps the script file or directory at `path` (trimmed); one that does
/// not exist (`exists` false) is not found and is not kept.
pub fn add_script_path(config: &mut Config, path: &str, exists: bool) -> (r: Result<(), SyncError>)
    ensures
        !exists ==> (r matches Err(SyncError::NotFound { path: p }) && p@ == trim_of(path@)
            && *final(config) == *old(config)),
        exists ==> (r is Ok && same_but_scripts(*final(config), *old(config))
            && final(config).script_paths.len() == old(config).script_paths.len() + 1
            && final(config).script_paths@.drop_last() == old(config).script_paths@
            && final(config).script_paths@.last()@ == trim_of(path@)),
        old(config).wf() ==> final(config).wf(),
{
    let p = trim(path);
    if !exists {
        return Err(SyncError::NotFound { path: p });
    }
    config.script_paths.push(p);
    assert(final(config).script_paths@.drop_last() =~= old(config).script_paths@);
    Ok(())
}

/// Forgets the script path at `index` and hands it back.
pub fn remove_script_path(config: &mut Config, index: usize) -> (r: Result<String, SyncError>)
    ensures
        index >= old(config).script_paths.len() ==> (r matches Err(SyncError::InvalidSelection)
            && *final(config) == *old(config)),
        index < old(config).script_paths.len() ==> (r matches Ok(p) && p == old(config).script_paths@[index as int]
            && same_but_scripts(*final(config), *old(config))
            && final(config).script_paths@ == old(config).script_paths@.remove(index as int)),
        old(config).wf() ==> final(config).wf(),
{
    if index >= config.script_paths.len() {
        return Err(SyncError::InvalidSelection);
    }
    Ok(config.script_paths.remove(index))
}

} // verus!
