//! Pane snapshot: the filtered view of the active tab's panes, rebuilt
//! wholesale from every pane-update event the host delivers.

use vstd::prelude::*;

verus! {

/// One pane as the host reports it: an opaque numeric handle, a display
/// title, and whether the pane hosts a control surface (a plugin) rather
/// than a terminal.
#[derive(Debug, PartialEq)]
pub struct PaneRecord {
    pub id: u32,
    pub title: String,
    pub is_plugin: bool,
}

/// Mathematical model of a `PaneRecord`.
#[verifier::ext_equal]
pub struct PaneView {
    pub id: u32,
    pub title: Seq<char>,
    pub is_plugin: bool,
}

impl View for PaneRecord {
    type V = PaneView;

    open spec fn view(&self) -> PaneView {
        PaneView { id: self.id, title: self.title@, is_plugin: self.is_plugin }
    }
}

impl DeepView for PaneRecord {
    type V = PaneView;

    open spec fn deep_view(&self) -> PaneView {
        self.view()
    }
}

/// One tab as the host reports it: its position and whether it is the
/// active tab.
#[derive(Debug, Clone, Copy, PartialEq, Eq, Structural)]
pub struct TabRecord {
    pub position: usize,
    pub active: bool,
}

/// Position of the first tab flagged active, or `dflt` when none is.
pub open spec fn first_active_pos(tabs: Seq<TabRecord>, dflt: usize) -> usize
    decreases tabs.len(),
{
    if tabs.len() == 0 {
        dflt
    } else if tabs[0].active {
        tabs[0].position
    } else {
        first_active_pos(tabs.drop_first(), dflt)
    }
}

/// The panes of one tab that belong in the snapshot: the control-surface
/// panes are dropped, the order of the rest is kept.
pub open spec fn panes_kept(ps: Seq<PaneView>) -> Seq<PaneView>
    decreases ps.len(),
{
    if ps.len() == 0 {
        Seq::empty()
    } else if !ps.last().is_plugin {
        panes_kept(ps.drop_last()).push(ps.last())
    } else {
        panes_kept(ps.drop_last())
    }
}

/// The whole snapshot: the kept panes of every group keyed by the active
/// tab, in the order the groups and their panes were received.
pub open spec fn visible_panes(groups: Seq<(usize, Vec<PaneRecord>)>, active: usize) -> Seq<
    PaneView,
>
    decreases groups.len(),
{
    if groups.len() == 0 {
        Seq::empty()
    } else {
        visible_panes(groups.drop_last(), active) + (if groups.last().0 == active {
            panes_kept(groups.last().1.deep_view())
        } else {
            Seq::empty()
        })
    }
}

pub proof fn lemma_panes_kept_sound(ps: Seq<PaneView>)
    ensures
        forall|k: int|
            0 <= k < panes_kept(ps).len() ==> !(#[trigger] panes_kept(ps)[k]).is_plugin
                && ps.contains(panes_kept(ps)[k]),
    decreases ps.len(),
{
    if ps.len() > 0 {
        let init = ps.drop_last();
        lemma_panes_kept_sound(init);
        assert forall|k: int|
            0 <= k < panes_kept(ps).len() implies !(#[trigger] panes_kept(ps)[k]).is_plugin
            && ps.contains(panes_kept(ps)[k]) by {
            let x = panes_kept(ps)[k];
            if !ps.last().is_plugin && k == panes_kept(ps).len() - 1 {
                assert(x == ps.last());
                assert(ps[ps.len() - 1] == x);
                assert(ps.contains(x));
            } else {
                assert(panes_kept(init)[k] == x);
                assert(init.contains(x));
                let i = choose|i: int| 0 <= i < init.len() && init[i] == x;
                assert(ps[i] == x);
                assert(ps.contains(x));
            }
        }
    }
}

/// No pane of the snapshot carries the control-surface flag, and every one
/// of them was reported under the active tab's key.
pub proof fn lemma_visible_panes_sound(groups: Seq<(usize, Vec<PaneRecord>)>, active: usize)
    ensures
        forall|k: int|
            0 <= k < visible_panes(groups, active).len() ==> !(#[trigger] visible_panes(
                groups,
                active,
            )[k]).is_plugin && exists|g: int|
                0 <= g < groups.len() && groups[g].0 == active
                    && groups[g].1.deep_view().contains(visible_panes(groups, active)[k]),
    decreases groups.len(),
{
    if groups.len() > 0 {
        let init = groups.drop_last();
        lemma_visible_panes_sound(init, active);
        lemma_panes_kept_sound(groups.last().1.deep_view());
        assert forall|k: int| 0 <= k < visible_panes(groups, active).len() implies !(
        #[trigger] visible_panes(groups, active)[k]).is_plugin && exists|g: int|
            0 <= g < groups.len() && groups[g].0 == active && groups[g].1.deep_view().contains(
                visible_panes(groups, active)[k],
            ) by {
            let p = visible_panes(groups, active)[k];
            if k < visible_panes(init, active).len() {
                assert(visible_panes(init, active)[k] == p);
                let g = choose|g: int|
                    0 <= g < init.len() && init[g].0 == active && init[g].1.deep_view().contains(
                        visible_panes(init, active)[k],
                    );
                assert(groups[g] == init[g]);
                assert(0 <= g < groups.len() && groups[g].0 == active
                    && groups[g].1.deep_view().contains(p));
            } else {
                let kept = panes_kept(groups.last().1.deep_view());
                assert(groups.last().0 == active);
                assert(kept[k - visible_panes(init, active).len()] == p);
                let g = groups.len() - 1;
                assert(groups[g] == groups.last());
                assert(groups[g].1.deep_view().contains(p));
            }
        }
    }
}

/// Builds the pane snapshot for `active` out of a pane-update payload.
pub fn rebuild_panes(groups: &Vec<(usize, Vec<PaneRecord>)>, active: usize) -> (r: Vec<PaneRecord>)
    ensures
        r.deep_view() == visible_panes(groups@, active),
{
    let mut out: Vec<PaneRecord> = Vec::new();
    proof {
        assert(groups@.take(0) =~= Seq::<(usize, Vec<PaneRecord>)>::empty());
        assert(out.deep_view() =~= visible_panes(groups@.take(0), active));
    }
    let n = groups.len();
    let mut i: usize = 0;
    while i < n
        invariant
            n == groups@.len(),
            i <= n,
            out.deep_view() == visible_panes(groups@.take(i as int), active),
        decreases n - i,
    {
        proof {
            assert(groups@.take(i + 1).drop_last() =~= groups@.take(i as int));
            assert(groups@.take(i + 1).last() == groups@[i as int]);
        }
        let group = &groups[i];
        if group.0 == active {
            let ghost dv = group.1.deep_view();
            let m = group.1.len();
            let mut j: usize = 0;
            proof {
                assert(dv.take(0) =~= Seq::<PaneView>::empty());
                assert(out.deep_view() + panes_kept(dv.take(0)) =~= out.deep_view());
            }
            let ghost base = out.deep_view();
            while j < m
                invariant
                    m == group.1@.len(),
                    j <= m,
                    dv == group.1.deep_view(),
                    dv.len() == m,
                    out.deep_view() == base + panes_kept(dv.take(j as int)),
                decreases m - j,
            {
                proof {
                    assert(dv.take(j + 1).drop_last() =~= dv.take(j as int));
                    assert(dv.take(j + 1).last() == dv[j as int]);
                    assert(dv[j as int] == group.1@[j as int]@);
                }
                let src = &group.1[j];
                if !src.is_plugin {
                    let ghost before = out.deep_view();
                    out.push(PaneRecord { id: src.id, title: src.title.clone(), is_plugin: false });
                    proof {
                        assert(out.deep_view() =~= before.push(dv[j as int]));
                        assert(out.deep_view() =~= base + panes_kept(dv.take(j + 1)));
                    }
                } else {
                    proof {
                        assert(panes_kept(dv.take(j + 1)) == panes_kept(dv.take(j as int)));
                    }
                }
                j += 1;
            }
            proof {
                assert(dv.take(m as int) =~= dv);
                assert(out.deep_view() =~= visible_panes(groups@.take(i + 1), active));
            }
        } else {
            proof {
                assert(visible_panes(groups@.take(i + 1), active) =~= visible_panes(
                    groups@.take(i as int),
                    active,
                ));
            }
        }
        i += 1;
    }
    proof {
        assert(groups@.take(n as int) =~= groups@);
    }
    out
}

/// Scans a tab-update payload for the active tab.
pub fn scan_active_tab(tabs: &Vec<TabRecord>, dflt: usize) -> (r: usize)
    ensures
        r == first_active_pos(tabs@, dflt),
{
    let n = tabs.len();
    let mut j: usize = 0;
    proof {
        assert(tabs@.skip(0) =~= tabs@);
    }
    while j < n
        invariant
            n == tabs@.len(),
            j <= n,
            first_active_pos(tabs@, dflt) == first_active_pos(tabs@.skip(j as int), dflt),
        decreases n - j,
    {
        proof {
            assert(tabs@.skip(j as int)[0] == tabs@[j as int]);
            assert(tabs@.skip(j as int).drop_first() =~= tabs@.skip(j + 1));
        }
        if tabs[j].active {
            return tabs[j].position;
        }
        j += 1;
    }
    proof {
        assert(tabs@.skip(n as int).len() == 0);
    }
    dflt
}

} // verus!
