//! VMID series: a template's base VMID and its per-node offsets, and what the
//! cluster's resource list says of a VMID.
use vstd::prelude::*;
use crate::text::{eq_ignore_ascii_case, eq_ignoring_ascii_case};

verus! {

/// Per-node VMID stride in a cluster (1002, 1102, 1202, ...).
pub const VMID_NODE_STRIDE: i32 = 100;

/// Integer division that rounds toward zero, as Rust's `/` on integers does.
pub open spec fn div_toward_zero(a: int, d: int) -> int {
    if a >= 0 {
        a / d
    } else {
        -((-a) / d)
    }
}

/// The first VMID above the thousand band of `base` (for 1002 it is 2000).
pub open spec fn series_limit(base: int) -> int {
    (div_toward_zero(base, 1000) + 1) * 1000
}

/// `vmid` is `base` or one of its per-node offsets `base + n * 100` that stay
/// below the end of the thousand band of `base`.
pub open spec fn in_base_series(vmid: int, base: int) -> bool {
    &&& base <= vmid
    &&& (vmid - base) % 100 == 0
    &&& vmid < series_limit(base)
}

/// `vmid` belongs to the series of one of the catalog's base VMIDs.
pub open spec fn is_managed(vmid: int, allowed: Seq<i32>) -> bool {
    exists|i: int| 0 <= i < allowed.len() && in_base_series(vmid, #[trigger] allowed[i] as int)
}

fn series_limit_wide(base: i32) -> (limit: i64)
    ensures
        limit == series_limit(base as int),
{
    let b: i64 = base as i64;
    let quotient: i64 = if b >= 0 {
        b / 1000
    } else {
        -((-b) / 1000)
    };
    (quotient + 1) * 1000
}

/// The end (exclusive) of the thousand band that holds the series of `base`.
pub fn vmid_series_limit(base: i32) -> (limit: i32)
    requires
        series_limit(base as int) <= i32::MAX,
    ensures
        limit == series_limit(base as int),
{
    let wide = series_limit_wide(base);
    wide as i32
}

/// Whether `vmid` is `base` or one of its per-node offsets within the thousand band.
pub fn is_vmid_in_base_series(vmid: i32, base: i32) -> (r: bool)
    ensures
        r == in_base_series(vmid as int, base as int),
{
    if vmid < base {
        return false;
    }
    let delta: i64 = (vmid as i64) - (base as i64);
    if delta % (VMID_NODE_STRIDE as i64) != 0 {
        return false;
    }
    (vmid as i64) < series_limit_wide(base)
}

/// Whether `vmid` is a base catalog VMID or one of its per-node offsets
/// (base + n*100) within the same thousand band.
pub fn is_managed_template_vmid(vmid: i32, allowed_vmids: &[i32]) -> (r: bool)
    ensures
        r == is_managed(vmid as int, allowed_vmids@),
{
    let mut i: usize = 0;
    while i < allowed_vmids.len()
        invariant
            i <= allowed_vmids@.len(),
            forall|k: int| 0 <= k < i ==> !in_base_series(vmid as int, #[trigger] allowed_vmids@[k] as int),
        decreases allowed_vmids@.len() - i,
    {
        if is_vmid_in_base_series(vmid, allowed_vmids[i]) {
            return true;
        }
        i = i + 1;
    }
    false
}

/// One entry of the cluster's resource list, reduced to what is read of it.
#[derive(Debug)]
pub struct ClusterResource {
    /// The entry's `vmid`, when it is an integer.
    pub vmid: Option<i64>,
    /// The entry's `node`, when it is a string.
    pub node: Option<String>,
}

/// The mathematical value of a [`ClusterResource`].
pub struct ClusterResourceView {
    pub vmid: Option<i64>,
    pub node: Option<Seq<char>>,
}

impl View for ClusterResource {
    type V = ClusterResourceView;

    open spec fn view(&self) -> ClusterResourceView {
        ClusterResourceView {
            vmid: self.vmid,
            node: match self.node {
                Some(n) => Some(n@),
                None => None,
            },
        }
    }
}

/// The views of a list of cluster resources.
pub open spec fn resources_view(resources: Seq<ClusterResource>) -> Seq<ClusterResourceView> {
    resources.map_values(|r: ClusterResource| r@)
}

/// Some entry of the list carries `vmid`.
pub open spec fn lists_vmid(resources: Seq<ClusterResourceView>, vmid: int) -> bool {
    exists|i: int| 0 <= i < resources.len() && #[trigger] resources[i].vmid == Some(vmid as i64)
}

/// The node of the first entry that carries `vmid` together with a node name.
pub open spec fn owner_of(resources: Seq<ClusterResourceView>, vmid: int) -> Option<Seq<char>>
    decreases resources.len(),
{
    if resources.len() == 0 {
        None
    } else if resources[0].vmid == Some(vmid as i64) && resources[0].node is Some {
        resources[0].node
    } else {
        owner_of(resources.drop_first(), vmid)
    }
}

/// Whether a VMID is in use: by the cluster's resource list when there is one,
/// else by the presence of its local configuration file.
pub open spec fn vmid_used(
    resources: Option<Seq<ClusterResourceView>>,
    vmid: int,
    config_exists: bool,
) -> bool {
    match resources {
        Some(r) => lists_vmid(r, vmid),
        None => config_exists,
    }
}

/// Whether a VMID belongs to this node: by the owner the resource list names,
/// compared without ASCII case to this node's name, else by the presence of
/// its local configuration file.
pub open spec fn vmid_local(
    current_node: Option<Seq<char>>,
    resources: Option<Seq<ClusterResourceView>>,
    vmid: int,
    config_exists: bool,
) -> bool {
    match current_node {
        None => config_exists,
        Some(current) => {
            let owner = match resources {
                Some(r) => owner_of(r, vmid),
                None => None,
            };
            match owner {
                Some(o) => eq_ignoring_ascii_case(o, current),
                None => config_exists,
            }
        },
    }
}

/// The optional resource list as a mathematical value.
pub open spec fn listing_view(resources: Option<Vec<ClusterResource>>) -> Option<Seq<ClusterResourceView>> {
    match resources {
        Some(r) => Some(resources_view(r@)),
        None => None,
    }
}

/// Whether some entry of the resource list carries `vmid`.
pub fn vmid_listed(resources: &[ClusterResource], vmid: i32) -> (r: bool)
    ensures
        r == lists_vmid(resources_view(resources@), vmid as int),
{
    let ghost rv = resources_view(resources@);
    let wanted: i64 = vmid as i64;
    let mut i: usize = 0;
    while i < resources.len()
        invariant
            i <= resources@.len(),
            rv == resources_view(resources@),
            wanted == vmid as i64,
            forall|k: int| 0 <= k < i ==> #[trigger] rv[k].vmid != Some(vmid as i64),
        decreases resources@.len() - i,
    {
        match resources[i].vmid {
            Some(id) => {
                if id == wanted {
                    assert(rv[i as int].vmid == Some(vmid as i64));
                    return true;
                }
            },
            None => {},
        }
        assert(rv[i as int].vmid != Some(vmid as i64));
        i = i + 1;
    }
    false
}

/// The node that the cluster's resource list names as the owner of `vmid`.
pub fn cluster_vm_owner(vmid: i32, resources: &[ClusterResource]) -> (owner: Option<String>)
    ensures
        match owner {
            Some(o) => owner_of(resources_view(resources@), vmid as int) == Some(o@),
            None => owner_of(resources_view(resources@), vmid as int) is None,
        },
{
    let ghost rv = resources_view(resources@);
    let wanted: i64 = vmid as i64;
    let mut i: usize = 0;
    assert(rv.skip(0) =~= rv);
    while i < resources.len()
        invariant
            i <= resources@.len(),
            rv == resources_view(resources@),
            wanted == vmid as i64,
            owner_of(rv, vmid as int) == owner_of(rv.skip(i as int), vmid as int),
        decreases resources@.len() - i,
    {
        assert(rv.skip(i as int).drop_first() =~= rv.skip(i + 1));
        assert(rv.skip(i as int)[0] == rv[i as int]);
        if resources[i].vmid == Some(wanted) {
            match &resources[i].node {
                Some(node) => {
                    return Some(node.clone());
                },
                None => {},
            }
        }
        i = i + 1;
    }
    assert(rv.skip(i as int).len() == 0);
    None
}

/// Whether `vmid` is in use in the cluster (`resources` is the cluster's
/// resource list, when it could be read; `config_exists` whether the VMID's
/// local configuration file exists).
pub fn is_vmid_used(vmid: &i32, resources: &Option<Vec<ClusterResource>>, config_exists: bool) -> (r: bool)
    ensures
        r == vmid_used(listing_view(*resources), *vmid as int, config_exists),
{
    match resources {
        Some(list) => vmid_listed(list.as_slice(), *vmid),
        None => config_exists,
    }
}

/// Whether `vmid` lives on this node, named `current_node` when its name is known.
pub fn is_vmid_local(
    vmid: &i32,
    current_node: &Option<String>,
    resources: &Option<Vec<ClusterResource>>,
    config_exists: bool,
) -> (r: bool)
    ensures
        r == vmid_local(
            match current_node {
                Some(c) => Some(c@),
                None => None,
            },
            listing_view(*resources),
            *vmid as int,
            config_exists,
        ),
{
    let current = match current_node {
        Some(c) => c,
        None => return config_exists,
    };
    let owner = match resources {
        Some(list) => cluster_vm_owner(*vmid, list.as_slice()),
        None => None,
    };
    match owner {
        Some(o) => eq_ignore_ascii_case(o.as_str(), current.as_str()),
        None => config_exists,
    }
}

/// Whether a managed template VMID is in use in the cluster; VMIDs outside
/// every managed series count as not in use.
pub fn is_template_vmid_in_use(
    vmid: &i32,
    allowed_vmids: &[i32],
    resources: &Option<Vec<ClusterResource>>,
    config_exists: bool,
) -> (r: bool)
    ensures
        r == (is_managed(*vmid as int, allowed_vmids@) && vmid_used(
            listing_view(*resources),
            *vmid as int,
            config_exists,
        )),
{
    if !is_managed_template_vmid(*vmid, allowed_vmids) {
        return false;
    }
    is_vmid_used(vmid, resources, config_exists)
}


/// The entries of the cluster's resource list printed as JSON in `stdout`,
/// each reduced to its `vmid` (when that is an integer) and its `node` (when
/// that is a string); `None` when `stdout` is not a JSON array.
pub uninterp spec fn cluster_listing(stdout: Seq<char>) -> Option<Seq<ClusterResourceView>>;

/// Parses the cluster's resource list with `serde_json::from_str` into JSON
/// values and keeps of each entry its `vmid` as an integer and its `node` as a
/// string. The contract claims only that the result is the value named
/// [`cluster_listing`] of the text, a function of the text alone.
#[verifier::external_body]
fn parse_cluster_resources(stdout: &str) -> (r: Option<Vec<ClusterResource>>)
    ensures
        listing_view(r) == cluster_listing(stdout@),
{
    serde_json::from_str::<Vec<serde_json::Value>>(stdout).ok().map(|entries| {
        entries.iter().map(|entry| ClusterResource {
            vmid: entry.get("vmid").and_then(serde_json::Value::as_i64),
            node: entry.get("node").and_then(serde_json::Value::as_str).map(str::to_string),
        }).collect()
    })
}

/// The resource list that the cluster printed, when it printed one.
pub open spec fn printed_listing(stdout: Option<&str>) -> Option<Seq<ClusterResourceView>> {
    match stdout {
        Some(text) => cluster_listing(text@),
        None => None,
    }
}

/// The node that the cluster's resource list, printed as JSON in `stdout`,
/// names as the owner of `vmid`; nothing when `stdout` does not parse.
pub fn cluster_vm_owner_from_listing(vmid: i32, stdout: &str) -> (owner: Option<String>)
    ensures
        match cluster_listing(stdout@) {
            Some(rs) => match owner {
                Some(o) => owner_of(rs, vmid as int) == Some(o@),
                None => owner_of(rs, vmid as int) is None,
            },
            None => owner is None,
        },
{
    match parse_cluster_resources(stdout) {
        Some(list) => cluster_vm_owner(vmid, list.as_slice()),
        None => None,
    }
}

/// Whether `vmid` is in use in the cluster: `stdout` is what the cluster
/// printed of its resource list, when the query ran and succeeded;
/// `config_exists` whether the VMID's local configuration file exists, which
/// decides when there is no list that parses.
pub fn is_vmid_used_from_listing(vmid: &i32, stdout: Option<&str>, config_exists: bool) -> (r: bool)
    ensures
        r == vmid_used(printed_listing(stdout), *vmid as int, config_exists),
{
    let resources = match stdout {
        Some(text) => parse_cluster_resources(text),
        None => None,
    };
    is_vmid_used(vmid, &resources, config_exists)
}

/// Whether `vmid` lives on this node, named `current_node` when its name is
/// known (`stdout` and `config_exists` as for [`is_vmid_used_from_listing`]).
pub fn is_vmid_local_from_listing(
    vmid: &i32,
    current_node: &Option<String>,
    stdout: Option<&str>,
    config_exists: bool,
) -> (r: bool)
    ensures
        r == vmid_local(
            match current_node {
                Some(c) => Some(c@),
                None => None,
            },
            printed_listing(stdout),
            *vmid as int,
            config_exists,
        ),
{
    let resources = match stdout {
        Some(text) => parse_cluster_resources(text),
        None => None,
    };
    is_vmid_local(vmid, current_node, &resources, config_exists)
}

/// `x` occurs in `v`.
pub open spec fn seq_has(v: Seq<i32>, x: int) -> bool {
    exists|i: int| 0 <= i < v.len() && #[trigger] v[i] as int == x
}

/// `vmid` is the base VMID of another template than the one based at `base`.
pub open spec fn other_base(allowed: Seq<i32>, base: int, vmid: int) -> bool {
    vmid != base && seq_has(allowed, vmid)
}

/// Distance still to walk from `c` to `limit`.
pub open spec fn step_gap(c: int, limit: int) -> nat {
    if c < limit {
        (limit - c) as nat
    } else {
        0
    }
}

/// The first VMID at or after `c`, in steps of 100 below the end of the
/// thousand band of `base`, that is not reserved in this run: the next VMID of
/// the series whose presence on this node is looked up.
pub open spec fn local_probe(base: int, reserved: Seq<i32>, c: int) -> Option<int>
    decreases step_gap(c, series_limit(base)),
{
    if c >= series_limit(base) {
        None
    } else if seq_has(reserved, c) {
        local_probe(base, reserved, c + 100)
    } else {
        Some(c)
    }
}

/// The first VMID at or after `c`, in steps of 100 below the end of the
/// thousand band of `base`, that is neither another template's base VMID nor
/// reserved in this run: the next VMID whose use in the cluster is looked up.
pub open spec fn cluster_probe(base: int, allowed: Seq<i32>, reserved: Seq<i32>, c: int) -> Option<int>
    decreases step_gap(c, series_limit(base)),
{
    if c >= series_limit(base) {
        None
    } else if other_base(allowed, base, c) || seq_has(reserved, c) {
        cluster_probe(base, allowed, reserved, c + 100)
    } else {
        Some(c)
    }
}

/// A probe started inside the series of `base` only ever yields a VMID of
/// that series that is not reserved.
pub proof fn lemma_local_probe_in_series(base: int, reserved: Seq<i32>, c: int)
    requires
        base <= c,
        (c - base) % 100 == 0,
    ensures
        local_probe(base, reserved, c) matches Some(v) ==> in_base_series(v, base) && !seq_has(reserved, v) && c <= v,
    decreases step_gap(c, series_limit(base)),
{
    if c < series_limit(base) && seq_has(reserved, c) {
        lemma_local_probe_in_series(base, reserved, c + 100);
    }
}

/// A cluster probe started inside the series of `base` only ever yields a VMID
/// of that series that is neither reserved nor another template's base VMID.
pub proof fn lemma_cluster_probe_in_series(base: int, allowed: Seq<i32>, reserved: Seq<i32>, c: int)
    requires
        base <= c,
        (c - base) % 100 == 0,
    ensures
        cluster_probe(base, allowed, reserved, c) matches Some(v) ==> in_base_series(v, base)
            && !seq_has(reserved, v) && !other_base(allowed, base, v) && c <= v,
    decreases step_gap(c, series_limit(base)),
{
    if c < series_limit(base) && (other_base(allowed, base, c) || seq_has(reserved, c)) {
        lemma_cluster_probe_in_series(base, allowed, reserved, c + 100);
    }
}

/// Whether the series of `base` ends at a VMID that an `i32` holds.
pub fn series_limit_fits(base: i32) -> (r: bool)
    ensures
        r == (series_limit(base as int) <= i32::MAX),
{
    series_limit_wide(base) <= (i32::MAX as i64)
}

/// Whether `x` occurs in `v`.
pub fn contains_vmid(v: &[i32], x: i64) -> (r: bool)
    ensures
        r == seq_has(v@, x as int),
{
    let mut i: usize = 0;
    while i < v.len()
        invariant
            i <= v@.len(),
            forall|k: int| 0 <= k < i ==> #[trigger] v@[k] as int != x,
        decreases v@.len() - i,
    {
        if (v[i] as i64) == x {
            return true;
        }
        i = i + 1;
    }
    false
}

/// The optional VMID as an optional integer.
pub open spec fn opt_int(o: Option<i32>) -> Option<int> {
    match o {
        Some(v) => Some(v as int),
        None => None,
    }
}

/// The next VMID of the series of `base`, from `from` on, whose presence on
/// this node is to be looked up: it is not reserved in this run.
pub fn find_local_series_vmid(base: i32, reserved: &[i32], from: i64) -> (r: Option<i32>)
    requires
        series_limit(base as int) <= i32::MAX,
        from >= i32::MIN,
    ensures
        opt_int(r) == local_probe(base as int, reserved@, from as int),
        base <= from && (from - base) % 100 == 0 ==> (r matches Some(v) ==> in_base_series(v as int, base as int)
            && from <= v && !seq_has(reserved@, v as int)),
{
    proof {
        if base <= from && (from - base) % 100 == 0 {
            lemma_local_probe_in_series(base as int, reserved@, from as int);
        }
    }
    let limit = series_limit_wide(base);
    let mut candidate: i64 = from;
    while candidate < limit
        invariant
            limit == series_limit(base as int),
            limit <= i32::MAX,
            i32::MIN <= candidate,
            local_probe(base as int, reserved@, candidate as int) == local_probe(
                base as int,
                reserved@,
                from as int,
            ),
            base <= from && (from - base) % 100 == 0 ==> (local_probe(base as int, reserved@, from as int) matches Some(v)
                ==> in_base_series(v, base as int) && from <= v && !seq_has(reserved@, v)),
        decreases step_gap(candidate as int, limit as int),
    {
        if !contains_vmid(reserved, candidate) {
            return Some(candidate as i32);
        }
        candidate = candidate + (VMID_NODE_STRIDE as i64);
    }
    None
}

/// The next VMID of the series of `base`, from `from` on, whose use in the
/// cluster is to be looked up: it is neither another template's base VMID nor
/// reserved in this run.
pub fn next_cluster_vmid(base: i32, allowed_vmids: &[i32], reserved: &[i32], from: i64) -> (r: Option<i32>)
    requires
        series_limit(base as int) <= i32::MAX,
        from >= i32::MIN,
    ensures
        opt_int(r) == cluster_probe(base as int, allowed_vmids@, reserved@, from as int),
        base <= from && (from - base) % 100 == 0 ==> (r matches Some(v) ==> in_base_series(v as int, base as int)
            && from <= v && !seq_has(reserved@, v as int) && !other_base(allowed_vmids@, base as int, v as int)),
{
    proof {
        if base <= from && (from - base) % 100 == 0 {
            lemma_cluster_probe_in_series(base as int, allowed_vmids@, reserved@, from as int);
        }
    }
    let limit = series_limit_wide(base);
    let mut candidate: i64 = from;
    while candidate < limit
        invariant
            limit == series_limit(base as int),
            limit <= i32::MAX,
            i32::MIN <= candidate,
            cluster_probe(base as int, allowed_vmids@, reserved@, candidate as int)
                == cluster_probe(base as int, allowed_vmids@, reserved@, from as int),
            base <= from && (from - base) % 100 == 0 ==> (cluster_probe(base as int, allowed_vmids@, reserved@, from as int)
                matches Some(v) ==> in_base_series(v, base as int) && from <= v && !seq_has(reserved@, v)
                && !other_base(allowed_vmids@, base as int, v)),
        decreases step_gap(candidate as int, limit as int),
    {
        let conflicts_other_base = candidate != (base as i64) && contains_vmid(allowed_vmids, candidate);
        if !conflicts_other_base && !contains_vmid(reserved, candidate) {
            return Some(candidate as i32);
        }
        candidate = candidate + (VMID_NODE_STRIDE as i64);
    }
    None
}


/// What to do with a VM that is to be removed before a template is reinstalled.
#[derive(Clone, Copy, PartialEq, Eq, Structural, Debug)]
pub enum DestroyDecision {
    /// Refuse: the VMID is in no managed series.
    Refuse,
    /// Nothing: the VMID is not in use.
    Skip,
    /// Run `qm destroy`.
    Destroy,
}

/// The decision on removing the VM `vmid`: refuse unless it is a managed
/// template VMID; else destroy it when it is in use, and do nothing otherwise.
pub open spec fn destroy_decision(
    vmid: int,
    allowed: Seq<i32>,
    resources: Option<Seq<ClusterResourceView>>,
    config_exists: bool,
) -> DestroyDecision {
    if !is_managed(vmid, allowed) {
        DestroyDecision::Refuse
    } else if vmid_used(resources, vmid, config_exists) {
        DestroyDecision::Destroy
    } else {
        DestroyDecision::Skip
    }
}

/// Decides how to remove the VM `vmid` before its template is reinstalled
/// (`resources` and `config_exists` as for [`is_vmid_used`]).
pub fn plan_destroy(
    vmid: i32,
    allowed_vmids: &[i32],
    resources: &Option<Vec<ClusterResource>>,
    config_exists: bool,
) -> (decision: DestroyDecision)
    ensures
        decision == destroy_decision(vmid as int, allowed_vmids@, listing_view(*resources), config_exists),
{
    if !is_managed_template_vmid(vmid, allowed_vmids) {
        return DestroyDecision::Refuse;
    }
    if is_vmid_used(&vmid, resources, config_exists) {
        DestroyDecision::Destroy
    } else {
        DestroyDecision::Skip
    }
}


/// Every VMID of the series that a local probe passes over is reserved.
pub proof fn lemma_local_probe_skips(base: int, reserved: Seq<i32>, c: int, k: int)
    requires
        base <= c,
        (c - base) % 100 == 0,
        c <= k,
        in_base_series(k, base),
        match local_probe(base, reserved, c) {
            Some(v) => k < v,
            None => true,
        },
    ensures
        seq_has(reserved, k),
    decreases step_gap(c, series_limit(base)),
{
    if c < series_limit(base) && seq_has(reserved, c) && k != c {
        lemma_local_probe_skips(base, reserved, c + 100, k);
    }
}

/// Every VMID of the series that a cluster probe passes over is reserved or
/// another template's base VMID.
pub proof fn lemma_cluster_probe_skips(base: int, allowed: Seq<i32>, reserved: Seq<i32>, c: int, k: int)
    requires
        base <= c,
        (c - base) % 100 == 0,
        c <= k,
        in_base_series(k, base),
        match cluster_probe(base, allowed, reserved, c) {
            Some(v) => k < v,
            None => true,
        },
    ensures
        seq_has(reserved, k) || other_base(allowed, base, k),
    decreases step_gap(c, series_limit(base)),
{
    if c < series_limit(base) && (other_base(allowed, base, c) || seq_has(reserved, c)) && k != c {
        lemma_cluster_probe_skips(base, allowed, reserved, c + 100, k);
    }
}


/// Law: the search for a local copy from `c` on finds nothing exactly when
/// every VMID of the series from `c` on is reserved in this run.
pub proof fn law_local_probe_none(base: int, reserved: Seq<i32>, c: int)
    requires
        base <= c,
        (c - base) % 100 == 0,
    ensures
        local_probe(base, reserved, c) is None <==> forall|k: int|
            c <= k && #[trigger] in_base_series(k, base) ==> seq_has(reserved, k),
{
    lemma_local_probe_in_series(base, reserved, c);
    if local_probe(base, reserved, c) is None {
        assert forall|k: int| c <= k && #[trigger] in_base_series(k, base) implies seq_has(reserved, k) by {
            lemma_local_probe_skips(base, reserved, c, k);
        }
    } else {
        let v = local_probe(base, reserved, c)->0;
        assert(c <= v && in_base_series(v, base) && !seq_has(reserved, v));
    }
}

/// Law: the search for a free VMID from `c` on finds nothing exactly when
/// every VMID of the series from `c` on is reserved in this run or another
/// template's base VMID.
pub proof fn law_cluster_probe_none(base: int, allowed: Seq<i32>, reserved: Seq<i32>, c: int)
    requires
        base <= c,
        (c - base) % 100 == 0,
    ensures
        cluster_probe(base, allowed, reserved, c) is None <==> forall|k: int|
            c <= k && #[trigger] in_base_series(k, base) ==> seq_has(reserved, k) || other_base(
                allowed,
                base,
                k,
            ),
{
    lemma_cluster_probe_in_series(base, allowed, reserved, c);
    if cluster_probe(base, allowed, reserved, c) is None {
        assert forall|k: int| c <= k && #[trigger] in_base_series(k, base) implies seq_has(reserved, k)
            || other_base(allowed, base, k) by {
            lemma_cluster_probe_skips(base, allowed, reserved, c, k);
        }
    } else {
        let v = cluster_probe(base, allowed, reserved, c)->0;
        assert(c <= v && in_base_series(v, base) && !seq_has(reserved, v) && !other_base(allowed, base, v));
    }
}

/// The `j`-th VMID of the series of `base`: `base + 100 * j`.
pub open spec fn series_member(base: int, j: int) -> int {
    base + 100 * j
}

/// Law: a series from a base VMID that is not negative has at most ten
/// VMIDs, `base + 100 * j` for `j` below ten, so a search asks about at most
/// ten VMIDs of it.
pub proof fn law_series_has_at_most_ten(base: int, k: int)
    requires
        0 <= base,
        in_base_series(k, base),
    ensures
        exists|j: int| 0 <= j < 10 && k == #[trigger] series_member(base, j),
{
    assert(series_limit(base) <= base + 1000);
    let j = (k - base) / 100;
    assert(k == series_member(base, j));
    assert(0 <= j < 10);
}


/// Law: a VM is only ever destroyed when its VMID is managed and in use; an
/// unmanaged VMID is refused whether or not it is in use; a managed VMID
/// that is not in use is left alone.
pub proof fn law_destroy_only_managed(
    vmid: int,
    allowed: Seq<i32>,
    resources: Option<Seq<ClusterResourceView>>,
    config_exists: bool,
)
    ensures
        destroy_decision(vmid, allowed, resources, config_exists) == DestroyDecision::Destroy <==> is_managed(
            vmid,
            allowed,
        ) && vmid_used(resources, vmid, config_exists),
        !is_managed(vmid, allowed) ==> destroy_decision(vmid, allowed, resources, config_exists)
            == DestroyDecision::Refuse,
        destroy_decision(vmid, allowed, resources, config_exists) == DestroyDecision::Refuse ==> !is_managed(
            vmid,
            allowed,
        ),
        destroy_decision(vmid, allowed, resources, config_exists) == DestroyDecision::Skip <==> is_managed(
            vmid,
            allowed,
        ) && !vmid_used(resources, vmid, config_exists),
{
}

} // verus!
