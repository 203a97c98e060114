//! Choosing the Electron main process among the inspector targets that the
//! Codex app exposes.
use vstd::prelude::*;

use crate::codex_oauth::opt_view;
use crate::text::{owned, str_eq};

verus! {

/// One target listed by a Chrome DevTools inspector.
#[derive(Debug, Clone)]
pub struct CdpTarget {
    pub id: String,
    pub target_type: String,
    pub title: String,
    pub url: String,
    pub web_socket_debugger_url: Option<String>,
}

impl CdpTarget {
    /// A field-by-field copy.
    pub fn duplicate(&self) -> (r: CdpTarget)
        ensures
            r.id@ == self.id@,
            r.target_type@ == self.target_type@,
            r.title@ == self.title@,
            r.url@ == self.url@,
            opt_view(r.web_socket_debugger_url) == opt_view(self.web_socket_debugger_url),
    {
        CdpTarget {
            id: self.id.clone(),
            target_type: self.target_type.clone(),
            title: self.title.clone(),
            url: self.url.clone(),
            web_socket_debugger_url: match &self.web_socket_debugger_url {
                Some(u) => Some(u.clone()),
                None => None,
            },
        }
    }
}

/// A target one can attach to: it has a non-empty websocket URL.
pub open spec fn attachable(t: CdpTarget) -> bool {
    match opt_view(t.web_socket_debugger_url) {
        Some(u) => u.len() > 0,
        None => false,
    }
}

/// An attachable Node target: the Electron main process.
pub open spec fn is_node_target(t: CdpTarget) -> bool {
    attachable(t) && t.target_type@ == "node"@
}

/// Position of the first target that passes `p`.
pub open spec fn first_target(ts: Seq<CdpTarget>, p: spec_fn(CdpTarget) -> bool) -> Option<int>
    decreases ts.len(),
{
    if ts.len() == 0 {
        None
    } else if p(ts[0]) {
        Some(0)
    } else {
        match first_target(ts.drop_first(), p) {
            Some(i) => Some(i + 1),
            None => None,
        }
    }
}

proof fn lemma_first_target(ts: Seq<CdpTarget>, p: spec_fn(CdpTarget) -> bool)
    ensures
        match first_target(ts, p) {
            Some(i) => 0 <= i < ts.len() && p(ts[i]) && forall|j: int| 0 <= j < i ==> !p(#[trigger] ts[j]),
            None => forall|j: int| 0 <= j < ts.len() ==> !p(#[trigger] ts[j]),
        },
    decreases ts.len(),
{
    if ts.len() > 0 && !p(ts[0]) {
        lemma_first_target(ts.drop_first(), p);
        assert forall|j: int| 0 < j < ts.len() implies ts[j] == ts.drop_first()[j - 1] by {}
    }
}

/// Why no inspector target was chosen.
#[derive(Debug, Clone, Copy, PartialEq, Eq, Structural)]
pub enum InspectorTargetError {
    /// No Node target, which is the only kind that can resume a paused main process.
    NoNodeTarget,
    /// No attachable target at all.
    NoTarget,
}

impl InspectorTargetError {
    /// The message shown for this error.
    pub fn message(&self) -> (r: String)
        ensures
            r@ == match self {
                InspectorTargetError::NoNodeTarget => "No Electron main-process Node inspector target found"@,
                InspectorTargetError::NoTarget => "No Electron main-process inspector target found"@,
            },
    {
        match self {
            InspectorTargetError::NoNodeTarget => owned("No Electron main-process Node inspector target found"),
            InspectorTargetError::NoTarget => owned("No Electron main-process inspector target found"),
        }
    }
}

fn is_attachable(t: &CdpTarget) -> (r: bool)
    ensures
        r == attachable(*t),
{
    match &t.web_socket_debugger_url {
        Some(u) => !u.as_str().is_empty(),
        None => false,
    }
}

/// Position of the first target passing the test (Node only, or any attachable one).
fn find_target(targets: &[CdpTarget], node_only: bool) -> (r: Option<usize>)
    ensures
        match r {
            Some(i) => i < targets@.len() && first_target(
                targets@,
                if node_only { |t: CdpTarget| is_node_target(t) } else { |t: CdpTarget| attachable(t) },
            ) == Some(i as int),
            None => first_target(
                targets@,
                if node_only { |t: CdpTarget| is_node_target(t) } else { |t: CdpTarget| attachable(t) },
            ) is None,
        },
{
    let ghost p = if node_only { |t: CdpTarget| is_node_target(t) } else { |t: CdpTarget| attachable(t) };
    proof {
        lemma_first_target(targets@, p);
    }
    let mut i: usize = 0;
    while i < targets.len()
        invariant
            i <= targets@.len(),
            p == (if node_only { |t: CdpTarget| is_node_target(t) } else { |t: CdpTarget| attachable(t) }),
            forall|j: int| 0 <= j < i ==> !p(#[trigger] targets@[j]),
            match first_target(targets@, p) {
                Some(k) => 0 <= k < targets@.len() && p(targets@[k]) && forall|j: int| 0 <= j < k ==> !p(#[trigger] targets@[j]),
                None => forall|j: int| 0 <= j < targets@.len() ==> !p(#[trigger] targets@[j]),
            },
        decreases targets@.len() - i,
    {
        let t = &targets[i];
        let ok = is_attachable(t) && (!node_only || str_eq(t.target_type.as_str(), "node"));
        if ok {
            assert(p(targets@[i as int]));
            proof {
                match first_target(targets@, p) {
                    Some(k) => {
                        if k > i {
                            assert(!p(targets@[i as int]));
                        }
                    },
                    None => {},
                }
            }
            return Some(i);
        }
        i = i + 1;
    }
    None
}

/// The inspector target that can resume a paused main process: the first attachable Node target.
pub fn pick_bootstrap_main_process_inspector_target(targets: &[CdpTarget]) -> (r: Result<
    CdpTarget,
    InspectorTargetError,
>)
    ensures
        match first_target(targets@, |t: CdpTarget| is_node_target(t)) {
            Some(i) => r matches Ok(t) && t.id@ == targets@[i].id@ && t.target_type@ == targets@[i].target_type@
                && opt_view(t.web_socket_debugger_url) == opt_view(targets@[i].web_socket_debugger_url),
            None => r matches Err(e) && e == InspectorTargetError::NoNodeTarget,
        },
{
    match find_target(targets, true) {
        Some(i) => Ok(targets[i].duplicate()),
        None => Err(InspectorTargetError::NoNodeTarget),
    }
}

/// The main-process inspector target: the first attachable Node target, else
/// the first attachable target of any kind.
pub fn pick_main_process_inspector_target(targets: &[CdpTarget]) -> (r: Result<CdpTarget, InspectorTargetError>)
    ensures
        match first_target(targets@, |t: CdpTarget| is_node_target(t)) {
            Some(i) => r matches Ok(t) && t.id@ == targets@[i].id@,
            None => match first_target(targets@, |t: CdpTarget| attachable(t)) {
                Some(i) => r matches Ok(t) && t.id@ == targets@[i].id@,
                None => r matches Err(e) && e == InspectorTargetError::NoTarget,
            },
        },
{
    match find_target(targets, true) {
        Some(i) => Ok(targets[i].duplicate()),
        None => match find_target(targets, false) {
            Some(i) => Ok(targets[i].duplicate()),
            None => Err(InspectorTargetError::NoTarget),
        },
    }
}

} // verus!
