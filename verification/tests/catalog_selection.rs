use template_downloader::catalog::{
    collect_template_vmids, find_catalog_source, flatten_groups, is_remote_source, names_catalog_source,
    pick_selected, select_templates, template_vm_name, Group, Template, TemplateSelection,
};
use template_downloader::options::RunOptions;

fn template(name: &str, vmid: i32) -> Template {
    Template { name: name.to_string(), vmid, link: format!("https://example.org/{vmid}/"), artifact: None }
}

fn catalog() -> Vec<Group> {
    vec![
        Group { name: "Ubuntu".to_string(), templates: vec![template("Ubuntu 22.04", 1000), template("Ubuntu 24.04", 1001)] },
        Group { name: "Empty".to_string(), templates: vec![] },
        Group { name: "Debian".to_string(), templates: vec![template("Debian 12", 4001)] },
    ]
}

fn names(list: &[Template]) -> Vec<String> {
    list.iter().map(|t| t.name.clone()).collect()
}

#[test]
fn vmids_in_catalog_order() {
    assert_eq!(collect_template_vmids(&catalog()), vec![1000, 1001, 4001]);
    assert!(collect_template_vmids(&[]).is_empty());
    assert_eq!(names(&flatten_groups(&catalog())), vec!["Ubuntu 22.04", "Ubuntu 24.04", "Debian 12"]);
}

#[test]
fn vm_names_are_normalised() {
    assert_eq!(template_vm_name(&template("Ubuntu 24.04", 1001)), "ubuntu-2404");
    assert_eq!(template_vm_name(&template("openSUSE Leap 15", 8000)), "opensuse-leap-15");
    assert_eq!(template_vm_name(&template("CentOS Stream 10", 3001)), "centos-stream-10");
    let name = template_vm_name(&template("Odd . Name. v1.2 ", 1));
    assert_eq!(name, "odd--name-v12-");
    assert!(!name.contains(' ') && !name.contains('.'));
}

#[test]
fn install_all_selects_everything() {
    let mut o = RunOptions::default();
    o.install_all = true;
    o.template_vmids = vec![4001];
    match select_templates(&catalog(), &o) {
        TemplateSelection::Chosen(list) => assert_eq!(names(&list), vec!["Ubuntu 22.04", "Ubuntu 24.04", "Debian 12"]),
        TemplateSelection::Ask { .. } => panic!("expected a settled selection"),
    }
}

#[test]
fn listed_vmids_select_in_catalog_order() {
    let mut o = RunOptions::default();
    o.template_vmids = vec![4001, 1000, 9999];
    match select_templates(&catalog(), &o) {
        TemplateSelection::Chosen(list) => assert_eq!(names(&list), vec!["Ubuntu 22.04", "Debian 12"]),
        TemplateSelection::Ask { .. } => panic!("expected a settled selection"),
    }
}

#[test]
fn non_interactive_without_list_selects_nothing() {
    let mut o = RunOptions::default();
    o.non_interactive = true;
    match select_templates(&catalog(), &o) {
        TemplateSelection::Chosen(list) => assert!(list.is_empty()),
        TemplateSelection::Ask { .. } => panic!("expected a settled selection"),
    }
}

#[test]
fn interactive_selection_lists_labels() {
    let o = RunOptions::default();
    match select_templates(&catalog(), &o) {
        TemplateSelection::Ask { labels, templates } => {
            assert_eq!(labels, vec!["Ubuntu 22.04 (Ubuntu)", "Ubuntu 24.04 (Ubuntu)", "Debian 12 (Debian)"]);
            let picked = pick_selected(&templates, &[2, 0]);
            assert_eq!(names(&picked), vec!["Debian 12", "Ubuntu 22.04"]);
        },
        TemplateSelection::Chosen(_) => panic!("expected a prompt"),
    }
    match select_templates(&[], &o) {
        TemplateSelection::Chosen(list) => assert!(list.is_empty()),
        TemplateSelection::Ask { .. } => panic!("nothing to ask about"),
    }
}

#[test]
fn custom_catalog_source() {
    let args: Vec<String> = ["--yes", "-x.json", "notes.txt", "https://example.com/images.json", "b.json"]
        .iter().map(|a| a.to_string()).collect();
    assert_eq!(find_catalog_source(&args), Some(3));
    assert_eq!(find_catalog_source(&args[..3]), None);
    assert!(names_catalog_source("/path/to/images.json"));
    assert!(names_catalog_source("http://host/list"));
    assert!(!names_catalog_source("--templates"));
    assert!(is_remote_source("https://example.com/images.json"));
    assert!(!is_remote_source("/path/to/images.json"));
}
