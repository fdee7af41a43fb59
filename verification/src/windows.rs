//! The window enumerator: projecting a window-tree snapshot into focus
//! candidates, one per window, in traversal order.
//!
//! The snapshot holds only what the projection reads: for each window its
//! application id and title. Obtaining it from the window manager is I/O and
//! happens outside this crate.

use vstd::prelude::*;

use crate::candidate::SwitchType;

verus! {

/// One open window as the window manager reports it: both fields may be
/// absent when the window carries no name.
#[derive(Debug, Clone, PartialEq, Eq)]
pub struct WindowInfo {
    pub app_id: Option<String>,
    pub title: Option<String>,
}

/// One workspace with its direct window children, in tree order.
#[derive(Debug, Clone, PartialEq, Eq)]
pub struct WorkspaceInfo {
    pub windows: Vec<WindowInfo>,
}

/// One top-level node of the tree with its workspace children.
#[derive(Debug, Clone, PartialEq, Eq)]
pub struct TopNode {
    pub workspaces: Vec<WorkspaceInfo>,
}

/// A snapshot of the window tree: its top-level nodes. In the window
/// manager's conventional tree shape the second top-level node is the
/// container holding the workspaces.
#[derive(Debug, Clone, PartialEq, Eq)]
pub struct TreeSnapshot {
    pub top: Vec<TopNode>,
}

/// The focus candidate for one window.
pub open spec fn window_candidate(w: WindowInfo) -> SwitchType {
    SwitchType::Focus(w.app_id, w.title)
}

/// The focus candidates of one workspace, in window order.
pub open spec fn workspace_candidates(ws: WorkspaceInfo) -> Seq<SwitchType> {
    ws.windows@.map_values(|w: WindowInfo| window_candidate(w))
}

/// The focus candidates of a snapshot: those of the workspaces of the second
/// top-level node, workspace by workspace in tree order; empty when the tree
/// does not have the expected shape.
pub open spec fn tree_candidates(t: TreeSnapshot) -> Seq<SwitchType> {
    if t.top@.len() < 2 {
        Seq::empty()
    } else {
        t.top@[1].workspaces@.map_values(|ws: WorkspaceInfo| workspace_candidates(ws)).flatten()
    }
}

/// Clones an optional string.
fn clone_opt(o: &Option<String>) -> (r: Option<String>)
    ensures
        r == *o,
{
    match o {
        Some(s) => Some(s.clone()),
        None => None,
    }
}

/// Walks the snapshot and emits one focus candidate per window of the
/// workspace container's workspaces, preserving traversal order.
pub fn window_candidates(t: &TreeSnapshot) -> (r: Vec<SwitchType>)
    ensures
        r@ == tree_candidates(*t),
{
    let mut r: Vec<SwitchType> = Vec::new();
    if t.top.len() < 2 {
        proof {
            assert(r@ =~= tree_candidates(*t));
        }
        return r;
    }
    let container = &t.top[1];
    let ghost per_ws = container.workspaces@.map_values(
        |ws: WorkspaceInfo| workspace_candidates(ws),
    );
    let mut d: usize = 0;
    proof {
        assert(per_ws.take(0) =~= Seq::<Seq<SwitchType>>::empty());
        assert(per_ws.take(0).flatten() =~= Seq::<SwitchType>::empty());
        assert(r@ =~= Seq::<SwitchType>::empty());
    }
    while d < container.workspaces.len()
        invariant
            d <= container.workspaces.len(),
            t.top@.len() >= 2,
            container == &t.top@[1],
            per_ws == container.workspaces@.map_values(
                |ws: WorkspaceInfo| workspace_candidates(ws),
            ),
            r@ == per_ws.take(d as int).flatten(),
        decreases container.workspaces.len() - d,
    {
        let ws = &container.workspaces[d];
        let mut j: usize = 0;
        let ghost r0 = r@;
        proof {
            assert(workspace_candidates(*ws).take(0) =~= Seq::<SwitchType>::empty());
            assert(r@ + Seq::<SwitchType>::empty() =~= r@);
        }
        while j < ws.windows.len()
            invariant
                j <= ws.windows.len(),
                ws == &container.workspaces@[d as int],
                d < container.workspaces.len(),
                r@ == r0 + workspace_candidates(*ws).take(j as int),
            decreases ws.windows.len() - j,
        {
            let w = &ws.windows[j];
            let ghost r1 = r@;
            let cand = SwitchType::Focus(clone_opt(&w.app_id), clone_opt(&w.title));
            r.push(cand);
            proof {
                assert(workspace_candidates(*ws)[j as int] == window_candidate(
                    ws.windows@[j as int],
                ));
                assert(workspace_candidates(*ws).take(j + 1) =~= workspace_candidates(
                    *ws,
                ).take(j as int).push(workspace_candidates(*ws)[j as int]));
                assert(r@ =~= r0 + workspace_candidates(*ws).take(j + 1));
            }
            j = j + 1;
        }
        proof {
            assert(workspace_candidates(*ws).take(ws.windows@.len() as int) =~= workspace_candidates(
                *ws,
            ));
            assert(per_ws[d as int] == workspace_candidates(*ws));
            assert(per_ws.take(d + 1) =~= per_ws.take(d as int).push(per_ws[d as int]));
            per_ws.take(d as int).lemma_flatten_push(per_ws[d as int]);
        }
        d = d + 1;
    }
    proof {
        assert(per_ws.take(container.workspaces@.len() as int) =~= per_ws);
    }
    r
}

} // verus!
