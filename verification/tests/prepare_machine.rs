use template_downloader::catalog::Template;
use template_downloader::options::RunOptions;
use template_downloader::prepare::{PrepareNotice, PrepareQuery, TemplatePreparation};

struct Cluster {
    used: Vec<i32>,
    local: Vec<i32>,
    confirm: bool,
    destroy_ok: bool,
}

fn template(name: &str, vmid: i32) -> Template {
    Template { name: name.to_string(), vmid, link: format!("https://example.org/{vmid}.img"), artifact: None }
}

fn options(assume_yes: bool, non_interactive: bool) -> RunOptions {
    let mut o = RunOptions::default();
    o.assume_yes = assume_yes;
    o.non_interactive = non_interactive;
    o
}

fn drive(
    templates: Vec<Template>,
    opts: &RunOptions,
    allowed: &[i32],
    cluster: &Cluster,
) -> (Vec<(String, i32)>, Vec<PrepareNotice>, Vec<PrepareQuery>) {
    let (mut run, mut query, mut notices) = TemplatePreparation::start(templates, opts, allowed);
    let mut queries = vec![query];
    loop {
        let answer = match query {
            PrepareQuery::IsUsed(v) => cluster.used.contains(&v),
            PrepareQuery::IsLocal(v) => cluster.local.contains(&v),
            PrepareQuery::ConfirmReplace { .. } => cluster.confirm,
            PrepareQuery::Destroy(_) => cluster.destroy_ok,
            PrepareQuery::Finished => break,
        };
        let (next, more) = run.step(answer);
        notices.extend(more);
        query = next;
        queries.push(query);
    }
    let prepared = run.into_prepared().into_iter().map(|t| (t.name, t.vmid)).collect();
    (prepared, notices, queries)
}

#[test]
fn free_base_vmid_is_used() {
    let cluster = Cluster { used: vec![], local: vec![], confirm: false, destroy_ok: true };
    let (prepared, notices, queries) =
        drive(vec![template("Ubuntu 26.04", 1002)], &options(false, false), &[1002], &cluster);
    assert_eq!(prepared, vec![("Ubuntu 26.04".to_string(), 1002)]);
    assert!(notices.is_empty());
    assert_eq!(queries[0], PrepareQuery::IsUsed(1002));
}

#[test]
fn base_used_on_other_nodes_gets_next_offset() {
    // Third node of a cluster: 1002 and 1102 live elsewhere.
    let cluster = Cluster { used: vec![1002, 1102], local: vec![], confirm: false, destroy_ok: true };
    let (prepared, notices, _) =
        drive(vec![template("Ubuntu 26.04", 1002)], &options(false, true), &[1002], &cluster);
    assert_eq!(prepared, vec![("Ubuntu 26.04".to_string(), 1202)]);
    assert_eq!(notices, vec![PrepareNotice::Relocated { index: 0, vmid: 1202 }]);
}

#[test]
fn local_copy_replaced_under_yes() {
    // 1002 lives on another node, 1102 here: the copy here is replaced.
    let cluster = Cluster { used: vec![1002, 1102], local: vec![1102], confirm: false, destroy_ok: true };
    let (prepared, notices, queries) =
        drive(vec![template("Ubuntu 26.04", 1002)], &options(true, false), &[1002], &cluster);
    assert_eq!(prepared, vec![("Ubuntu 26.04".to_string(), 1102)]);
    assert!(notices.is_empty());
    assert!(queries.contains(&PrepareQuery::Destroy(1102)));
    assert!(!queries.iter().any(|q| matches!(q, PrepareQuery::ConfirmReplace { .. })));
}

#[test]
fn free_base_wins_over_local_copy() {
    // 1002 is free in the whole cluster: it is taken, and 1102 here is left alone.
    let cluster = Cluster { used: vec![1102], local: vec![1102], confirm: true, destroy_ok: true };
    let (prepared, notices, queries) =
        drive(vec![template("Ubuntu 26.04", 1002)], &options(true, false), &[1002], &cluster);
    assert_eq!(prepared, vec![("Ubuntu 26.04".to_string(), 1002)]);
    assert!(notices.is_empty());
    assert_eq!(queries, vec![PrepareQuery::IsUsed(1002), PrepareQuery::Finished]);
}

#[test]
fn local_copy_kept_when_non_interactive() {
    let cluster = Cluster { used: vec![1002], local: vec![1002], confirm: true, destroy_ok: true };
    let (prepared, notices, queries) =
        drive(vec![template("Debian 12", 1002)], &options(false, true), &[1002], &cluster);
    assert_eq!(prepared, vec![("Debian 12".to_string(), 1102)]);
    assert_eq!(notices, vec![PrepareNotice::Relocated { index: 0, vmid: 1102 }]);
    assert!(!queries.iter().any(|q| matches!(q, PrepareQuery::Destroy(_))));
    assert!(!queries.iter().any(|q| matches!(q, PrepareQuery::ConfirmReplace { .. })));
}

#[test]
fn interactive_replacement_asks_first() {
    let cluster = Cluster { used: vec![4001], local: vec![4001], confirm: true, destroy_ok: true };
    let (prepared, _, queries) =
        drive(vec![template("Debian 12", 4001)], &options(false, false), &[4001], &cluster);
    assert_eq!(prepared, vec![("Debian 12".to_string(), 4001)]);
    let ask = queries.iter().position(|q| *q == PrepareQuery::ConfirmReplace { index: 0, vmid: 4001 });
    let destroy = queries.iter().position(|q| *q == PrepareQuery::Destroy(4001));
    assert!(ask.is_some() && destroy.is_some() && ask < destroy);
}

#[test]
fn declined_replacement_takes_free_offset() {
    let cluster = Cluster { used: vec![4001], local: vec![4001], confirm: false, destroy_ok: true };
    let (prepared, notices, _) =
        drive(vec![template("Debian 12", 4001)], &options(false, false), &[4001], &cluster);
    assert_eq!(prepared, vec![("Debian 12".to_string(), 4101)]);
    assert_eq!(notices, vec![PrepareNotice::Relocated { index: 0, vmid: 4101 }]);
}

#[test]
fn failed_destroy_skips_template() {
    let cluster = Cluster { used: vec![1002], local: vec![1002], confirm: false, destroy_ok: false };
    let (prepared, notices, _) = drive(
        vec![template("Ubuntu 26.04", 1002), template("Debian 12", 4001)],
        &options(true, true),
        &[1002, 4001],
        &cluster,
    );
    assert_eq!(prepared, vec![("Debian 12".to_string(), 4001)]);
    assert_eq!(notices, vec![PrepareNotice::DestroyFailed { index: 0, vmid: 1002 }]);
}

#[test]
fn unmanaged_template_is_skipped() {
    let cluster = Cluster { used: vec![], local: vec![], confirm: false, destroy_ok: true };
    let (prepared, notices, _) = drive(
        vec![template("Custom", 9000), template("Fedora 44", 6002)],
        &options(false, true),
        &[6002],
        &cluster,
    );
    assert_eq!(prepared, vec![("Fedora 44".to_string(), 6002)]);
    assert_eq!(notices, vec![PrepareNotice::NotManaged { index: 0 }]);
}

#[test]
fn exhausted_series_is_reported() {
    let used: Vec<i32> = (0..10).map(|n| 8001 + 100 * n).collect();
    let cluster = Cluster { used, local: vec![], confirm: false, destroy_ok: true };
    let (prepared, notices, _) =
        drive(vec![template("openSUSE Leap 16", 8001)], &options(false, true), &[8001], &cluster);
    assert!(prepared.is_empty());
    assert_eq!(notices, vec![PrepareNotice::NoFreeVmid { index: 0, limit: 9000 }]);
}

#[test]
fn searches_ask_only_about_the_ten_series_vmids() {
    let used: Vec<i32> = (0..10).map(|n| 8001 + 100 * n).collect();
    let cluster = Cluster { used: used.clone(), local: vec![], confirm: false, destroy_ok: true };
    let (_, _, queries) =
        drive(vec![template("openSUSE Leap 16", 8001)], &options(false, true), &[8001], &cluster);
    let asked: Vec<i32> = queries
        .iter()
        .filter_map(|q| match q {
            PrepareQuery::IsUsed(v) | PrepareQuery::IsLocal(v) => Some(*v),
            _ => None,
        })
        .collect();
    assert!(asked.iter().all(|v| used.contains(v)));
    // The base once, then each search walks the series once.
    let cluster_search: Vec<&PrepareQuery> =
        queries.iter().rev().skip(1).take_while(|q| matches!(q, PrepareQuery::IsUsed(_))).collect();
    assert_eq!(cluster_search.len(), 10);
}

#[test]
fn same_template_twice_gets_distinct_vmids() {
    let cluster = Cluster { used: vec![], local: vec![], confirm: false, destroy_ok: true };
    let (prepared, _, _) = drive(
        vec![template("Ubuntu 24.04", 1001), template("Ubuntu 24.04", 1001)],
        &options(false, true),
        &[1001],
        &cluster,
    );
    assert_eq!(prepared, vec![("Ubuntu 24.04".to_string(), 1001), ("Ubuntu 24.04".to_string(), 1101)]);
}

#[test]
fn empty_selection_finishes_at_once() {
    let cluster = Cluster { used: vec![], local: vec![], confirm: false, destroy_ok: true };
    let (prepared, notices, queries) = drive(vec![], &options(false, false), &[1000], &cluster);
    assert!(prepared.is_empty());
    assert!(notices.is_empty());
    assert_eq!(queries, vec![PrepareQuery::Finished]);
}

#[test]
fn template_lookup_by_index() {
    let (run, _, _) = TemplatePreparation::start(vec![template("Alma Linux 9", 7001)], &options(false, true), &[7001]);
    assert_eq!(run.template(0).name, "Alma Linux 9");
}

#[test]
fn first_used_local_copy_is_replaced() {
    // 1002 is used on another node; 1102 and 1202 live here: 1102 is replaced.
    let cluster = Cluster { used: vec![1002, 1102, 1202], local: vec![1102, 1202], confirm: false, destroy_ok: true };
    let (prepared, notices, queries) =
        drive(vec![template("Ubuntu 26.04", 1002)], &options(true, false), &[1002], &cluster);
    assert_eq!(prepared, vec![("Ubuntu 26.04".to_string(), 1102)]);
    assert!(notices.is_empty());
    assert!(queries.contains(&PrepareQuery::Destroy(1102)));
    assert!(!queries.contains(&PrepareQuery::Destroy(1202)));
}

#[test]
fn prepared_keeps_input_order() {
    let cluster = Cluster { used: vec![4001], local: vec![], confirm: false, destroy_ok: true };
    let (prepared, _, _) = drive(
        vec![template("Fedora 44", 6002), template("Custom", 42), template("Debian 12", 4001), template("Alma Linux 9", 7001)],
        &options(false, true),
        &[6002, 4001, 7001],
        &cluster,
    );
    assert_eq!(
        prepared,
        vec![("Fedora 44".to_string(), 6002), ("Debian 12".to_string(), 4101), ("Alma Linux 9".to_string(), 7001)]
    );
}
