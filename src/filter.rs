//! Selection of the items that a bulk operation works on.
use vstd::prelude::*;
use crate::model::{opt_is, items_view, SyncItem, SyncItemView};

verus! {

/// What a bulk operation covers: every enabled item, or the enabled items of
/// one group.
#[derive(Debug, Clone)]
pub enum Scope {
    All,
    Group(String),
}

pub enum ScopeView {
    All,
    Group(Seq<char>),
}

impl View for Scope {
    type V = ScopeView;

    open spec fn view(&self) -> ScopeView {
        match self {
            Scope::All => ScopeView::All,
            Scope::Group(g) => ScopeView::Group(g@),
        }
    }
}

/// Whether `scope` covers `item`.
pub open spec fn in_scope(item: SyncItemView, scope: ScopeView) -> bool {
    item.is_enabled && match scope {
        ScopeView::All => true,
        ScopeView::Group(g) => item.group == Some(g),
    }
}

/// The items that `scope` covers, in registry order.
pub open spec fn selection(items: Seq<SyncItemView>, scope: ScopeView) -> Seq<SyncItemView> {
    items.filter(|i: SyncItemView| in_scope(i, scope))
}

/// Tests whether `scope` covers `item`.
pub fn covers(scope: &Scope, item: &SyncItem) -> (r: bool)
    ensures
        r == in_scope(item@, scope@),
{
    if !item.is_enabled {
        return false;
    }
    match scope {
        Scope::All => true,
        Scope::Group(g) => opt_is(&item.group, g.as_str()),
    }
}

/// The items of `items` that `scope` covers, in registry order.
pub fn select(items: &Vec<SyncItem>, scope: &Scope) -> (r: Vec<SyncItem>)
    ensures
        items_view(r@) == selection(items_view(items@), scope@),
{
    let mut r: Vec<SyncItem> = Vec::new();
    let mut i: usize = 0;
    while i < items.len()
        invariant
            i <= items.len(),
            items_view(r@) == selection(items_view(items@.take(i as int)), scope@),
        decreases items.len() - i,
    {
        let ghost pred = |v: SyncItemView| in_scope(v, scope@);
        proof {
            assert(items_view(items@.take(i + 1)) =~= items_view(items@.take(i as int)).push(items@[i as int]@));
            items_view(items@.take(i as int)).lemma_filter_push(items@[i as int]@, pred);
        }
        if covers(scope, &items[i]) {
            let c = items[i].copied();
            r.push(c);
            assert(items_view(r@) =~= selection(items_view(items@.take(i as int)), scope@).push(items@[i as int]@));
        }
        i = i + 1;
    }
    assert(items@.take(items.len() as int) =~= items@);
    r
}

/// The group filter keeps exactly the enabled members of group `g`: each
/// item it returns is enabled and in `g`, the registry's order is kept (the
/// result is the registry filtered), every enabled member is returned, and a
/// group with no enabled member, among them a name that no item carries,
/// gives nothing.
pub proof fn lemma_group_selection(items: Seq<SyncItemView>, g: Seq<char>)
    ensures
        forall|k: int| 0 <= k < selection(items, ScopeView::Group(g)).len() ==>
            (#[trigger] selection(items, ScopeView::Group(g))[k]).is_enabled
            && selection(items, ScopeView::Group(g))[k].group == Some(g),
        selection(items, ScopeView::Group(g)) == items.filter(
            |i: SyncItemView| i.is_enabled && i.group == Some(g),
        ),
        forall|k: int| 0 <= k < items.len() && items[k].is_enabled && items[k].group == Some(g)
            ==> selection(items, ScopeView::Group(g)).contains(#[trigger] items[k]),
        (forall|k: int| 0 <= k < items.len() ==> !(#[trigger] items[k].is_enabled && items[k].group == Some(g)))
            ==> selection(items, ScopeView::Group(g)).len() == 0,
    decreases items.len(),
{
    broadcast use vstd::seq_lib::group_filter_ensures;

    let covered = |i: SyncItemView| in_scope(i, ScopeView::Group(g));
    let member = |i: SyncItemView| i.is_enabled && i.group == Some(g);
    assert(covered == member);
    if items.len() > 0 {
        lemma_group_selection(items.drop_last(), g);
        assert(items.drop_last().push(items.last()) =~= items);
        items.drop_last().lemma_filter_push(items.last(), covered);
        if forall|k: int| 0 <= k < items.len() ==> !(#[trigger] items[k].is_enabled && items[k].group == Some(g)) {
            assert forall|k: int| 0 <= k < items.drop_last().len() implies !(#[trigger] items.drop_last()[k].is_enabled && items.drop_last()[k].group == Some(g)) by {
                assert(items.drop_last()[k] == items[k]);
            }
            assert(!covered(items.last()));
        }
    }
}

} // verus!
