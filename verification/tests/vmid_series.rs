use template_downloader::vmid::{
    cluster_vm_owner, cluster_vm_owner_from_listing, contains_vmid, find_local_series_vmid, is_managed_template_vmid,
    is_template_vmid_in_use, is_vmid_in_base_series, is_vmid_local, is_vmid_local_from_listing, is_vmid_used,
    is_vmid_used_from_listing, next_cluster_vmid,
    plan_destroy, series_limit_fits, vmid_listed, vmid_series_limit, ClusterResource, DestroyDecision,
};

fn resource(vmid: Option<i64>, node: Option<&str>) -> ClusterResource {
    ClusterResource { vmid, node: node.map(|n| n.to_string()) }
}

#[test]
fn series_limit_is_end_of_thousand_band() {
    assert_eq!(vmid_series_limit(1002), 2000);
    assert_eq!(vmid_series_limit(1000), 2000);
    assert_eq!(vmid_series_limit(8001), 9000);
    assert_eq!(vmid_series_limit(999), 1000);
    assert_eq!(vmid_series_limit(0), 1000);
    // Rust's division rounds toward zero for negative bases.
    assert_eq!(vmid_series_limit(-1500), 0);
    assert!(series_limit_fits(2147482999));
    assert!(!series_limit_fits(2147483000));
}

#[test]
fn node_offsets_stay_in_band() {
    // Ubuntu 26.04: 1002 -> 1102 -> 1202.
    assert!(is_vmid_in_base_series(1002, 1002));
    assert!(is_vmid_in_base_series(1102, 1002));
    assert!(is_vmid_in_base_series(1202, 1002));
    assert!(is_vmid_in_base_series(1902, 1002));
    assert!(!is_vmid_in_base_series(2002, 1002));
    assert!(!is_vmid_in_base_series(1052, 1002));
    assert!(!is_vmid_in_base_series(902, 1002));
    assert!(!is_vmid_in_base_series(1001, 1002));
    // No overflow on extreme values.
    assert!(!is_vmid_in_base_series(i32::MAX, i32::MIN));
}

#[test]
fn managed_vmids_follow_catalog_series() {
    let allowed = vec![1000, 1001, 1002, 4001];
    assert!(is_managed_template_vmid(1000, &allowed));
    assert!(is_managed_template_vmid(1101, &allowed));
    assert!(is_managed_template_vmid(4901, &allowed));
    assert!(!is_managed_template_vmid(4000, &allowed));
    assert!(!is_managed_template_vmid(5001, &allowed));
    assert!(!is_managed_template_vmid(1000, &[]));
}

#[test]
fn contains_vmid_finds_members() {
    assert!(contains_vmid(&[1, 2, 3], 2));
    assert!(!contains_vmid(&[1, 2, 3], 4));
    assert!(!contains_vmid(&[1], 1 + (1i64 << 32)));
}

#[test]
fn local_probe_skips_reserved() {
    assert_eq!(find_local_series_vmid(1002, &[], 1002), Some(1002));
    assert_eq!(find_local_series_vmid(1002, &[1002, 1102], 1002), Some(1202));
    assert_eq!(find_local_series_vmid(1002, &[1902], 1902), None);
    assert_eq!(find_local_series_vmid(1002, &[], 2002), None);
}

#[test]
fn cluster_probe_skips_other_bases_and_reserved() {
    let allowed = vec![1000, 1100, 1002];
    // 1100 is another template's base VMID: never handed to base 1000.
    assert_eq!(next_cluster_vmid(1000, &allowed, &[], 1100), Some(1200));
    assert_eq!(next_cluster_vmid(1000, &allowed, &[1000], 1000), Some(1200));
    // A base is not in conflict with itself.
    assert_eq!(next_cluster_vmid(1100, &allowed, &[], 1100), Some(1100));
    assert_eq!(next_cluster_vmid(1002, &allowed, &[], 1902), Some(1902));
    assert_eq!(next_cluster_vmid(1002, &allowed, &[1902], 1902), None);
}

#[test]
fn used_vmids_come_from_resource_list() {
    let list = vec![resource(Some(1002), Some("pve1")), resource(None, Some("pve2")), resource(Some(4001), None)];
    assert!(vmid_listed(&list, 1002));
    assert!(vmid_listed(&list, 4001));
    assert!(!vmid_listed(&list, 1102));
    assert!(is_vmid_used(&1002, &Some(list), false));
    // Without a resource list the local configuration file decides.
    assert!(is_vmid_used(&1002, &None, true));
    assert!(!is_vmid_used(&1002, &None, false));
}

#[test]
fn owner_is_first_entry_with_node() {
    let list = vec![
        resource(Some(1002), None),
        resource(Some(1002), Some("pve2")),
        resource(Some(1002), Some("pve3")),
    ];
    assert_eq!(cluster_vm_owner(1002, &list), Some("pve2".to_string()));
    assert_eq!(cluster_vm_owner(1102, &list), None);
}

#[test]
fn locality_compares_node_names_without_case() {
    let list = Some(vec![resource(Some(1002), Some("PVE1")), resource(Some(1102), Some("pve2"))]);
    let here = Some("pve1".to_string());
    assert!(is_vmid_local(&1002, &here, &list, false));
    assert!(!is_vmid_local(&1102, &here, &list, true));
    // Unknown owner: the local configuration file decides.
    assert!(is_vmid_local(&1202, &here, &list, true));
    assert!(!is_vmid_local(&1202, &here, &list, false));
    // Unknown node name: the local configuration file decides.
    assert!(is_vmid_local(&1102, &None, &list, true));
    assert!(!is_vmid_local(&1002, &None, &list, false));
}

#[test]
fn template_in_use_only_for_managed_vmids() {
    let allowed = vec![1002];
    let list = Some(vec![resource(Some(1102), Some("pve2")), resource(Some(5000), Some("pve2"))]);
    assert!(is_template_vmid_in_use(&1102, &allowed, &list, false));
    assert!(!is_template_vmid_in_use(&1202, &allowed, &list, false));
    assert!(!is_template_vmid_in_use(&5000, &allowed, &list, true));
}

#[test]
fn destroy_only_managed_vmids_in_use() {
    let allowed = vec![1002];
    let list = Some(vec![resource(Some(1102), Some("pve1"))]);
    assert_eq!(plan_destroy(5000, &allowed, &list, true), DestroyDecision::Refuse);
    assert_eq!(plan_destroy(1102, &allowed, &list, false), DestroyDecision::Destroy);
    assert_eq!(plan_destroy(1202, &allowed, &list, true), DestroyDecision::Skip);
    assert_eq!(plan_destroy(1202, &allowed, &None, true), DestroyDecision::Destroy);
}

const LISTING: &str = r#"[{"vmid":1002,"node":"pve1","type":"qemu"},{"vmid":"1102","node":"pve2"},{"vmid":1202},{"vmid":1202,"node":"PVE3"}]"#;

#[test]
fn listing_text_gives_owner() {
    assert_eq!(cluster_vm_owner_from_listing(1002, LISTING), Some("pve1".to_string()));
    // A VMID written as a string is no integer, so the entry does not count.
    assert_eq!(cluster_vm_owner_from_listing(1102, LISTING), None);
    // The first entry with the VMID has no node; the next one names it.
    assert_eq!(cluster_vm_owner_from_listing(1202, LISTING), Some("PVE3".to_string()));
    assert_eq!(cluster_vm_owner_from_listing(1002, "not json"), None);
    assert_eq!(cluster_vm_owner_from_listing(1002, r#"{"vmid":1002,"node":"pve1"}"#), None);
    assert_eq!(cluster_vm_owner_from_listing(1002, "[]"), None);
}

#[test]
fn listing_text_decides_use() {
    assert!(is_vmid_used_from_listing(&1002, Some(LISTING), false));
    assert!(is_vmid_used_from_listing(&1202, Some(LISTING), false));
    assert!(!is_vmid_used_from_listing(&1102, Some(LISTING), true));
    assert!(!is_vmid_used_from_listing(&1302, Some("[]"), true));
    // No list that parses: the local configuration file decides.
    assert!(is_vmid_used_from_listing(&1302, Some("pvesh: error"), true));
    assert!(!is_vmid_used_from_listing(&1002, Some("pvesh: error"), false));
    assert!(is_vmid_used_from_listing(&1002, None, true));
    assert!(!is_vmid_used_from_listing(&1002, None, false));
}

#[test]
fn listing_text_decides_locality() {
    let here = Some("pve3".to_string());
    assert!(is_vmid_local_from_listing(&1202, &here, Some(LISTING), false));
    assert!(!is_vmid_local_from_listing(&1002, &here, Some(LISTING), true));
    // Not listed: the local configuration file decides.
    assert!(is_vmid_local_from_listing(&1302, &here, Some(LISTING), true));
    assert!(!is_vmid_local_from_listing(&1302, &here, Some(LISTING), false));
    assert!(is_vmid_local_from_listing(&1002, &here, Some("garbage"), true));
    assert!(is_vmid_local_from_listing(&1002, &None, Some(LISTING), true));
    assert!(!is_vmid_local_from_listing(&1202, &None, Some(LISTING), false));
}
