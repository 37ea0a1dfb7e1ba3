use template_downloader::options::{
    default_storage_index, parse_args, parse_vm_storages, parse_vmid_list, preset_storage_location, storage_choice,
    RunOptions, StorageChoice,
};

fn args(list: &[&str]) -> Vec<String> {
    list.iter().map(|a| a.to_string()).collect()
}

#[test]
fn non_interactive_flags() {
    let o = parse_args(&args(&["--non-interactive", "--templates", "1001,4001,6002", "--storage", "local-lvm", "--yes"]));
    assert_eq!(o.template_vmids, vec![1001, 4001, 6002]);
    assert_eq!(o.storage.as_deref(), Some("local-lvm"));
    assert!(o.assume_yes && o.non_interactive && !o.install_all);
}

#[test]
fn short_flags_and_all() {
    let o = parse_args(&args(&["-t", " 1000 , x, 3001 ,", "-s", "ceph", "-y", "--all"]));
    assert_eq!(o.template_vmids, vec![1000, 3001]);
    assert_eq!(o.storage.as_deref(), Some("ceph"));
    assert!(o.assume_yes && o.install_all && !o.non_interactive);
}

#[test]
fn missing_values_and_unknown_arguments() {
    let o = parse_args(&args(&["images.json", "--storage", "a", "--bogus", "--storage"]));
    assert_eq!(o.storage, None);
    let o = parse_args(&args(&["--templates"]));
    assert!(o.template_vmids.is_empty());
    let o = parse_args(&[]);
    assert!(o.storage.is_none() && o.template_vmids.is_empty() && !o.install_all);
    // A flag's value is never read as a flag.
    let o = parse_args(&args(&["--storage", "--yes"]));
    assert_eq!(o.storage.as_deref(), Some("--yes"));
    assert!(!o.assume_yes);
}

#[test]
fn vmid_list_skips_unparsable_pieces() {
    assert_eq!(parse_vmid_list("1001,4001"), vec![1001, 4001]);
    assert_eq!(parse_vmid_list(""), Vec::<i32>::new());
    assert_eq!(parse_vmid_list("a,+5,-6, 7 "), vec![5, -6, 7]);
}

#[test]
fn storage_preset_by_options() {
    let mut o = RunOptions::default();
    assert_eq!(preset_storage_location(&o), None);
    o.non_interactive = true;
    assert_eq!(preset_storage_location(&o).as_deref(), Some("local-lvm"));
    o.storage = Some("zfs".to_string());
    assert_eq!(preset_storage_location(&o).as_deref(), Some("zfs"));
}

#[test]
fn default_storage_prefers_local_lvm() {
    assert_eq!(default_storage_index(&args(&["local", "ceph", "local-lvm", "local-lvm"])), 2);
    assert_eq!(default_storage_index(&args(&["local", "ceph"])), 0);
    assert_eq!(default_storage_index(&[]), 0);
}

#[test]
fn storages_from_pvesm_output() {
    let out = "Name             Type     Status           Total            Used       Available        %\nlocal-lvm     lvmthin     active       100 50 50 50%\n\n   ceph rbd active\nName x\n";
    assert_eq!(parse_vm_storages(out), args(&["local-lvm", "ceph"]));
    assert!(parse_vm_storages("").is_empty());
    assert!(parse_vm_storages("Name Type\n").is_empty());
}

#[test]
fn single_storage_is_taken_without_asking() {
    let o = RunOptions::default();
    assert!(matches!(storage_choice(&o, &args(&["ceph"])), StorageChoice::Use(s) if s == "ceph"));
    assert!(matches!(storage_choice(&o, &args(&["local", "local-lvm"])), StorageChoice::Pick { default_index: 1 }));
    assert!(matches!(storage_choice(&o, &[]), StorageChoice::Type));
    let mut o = RunOptions::default();
    o.storage = Some("zfs".to_string());
    assert!(matches!(storage_choice(&o, &args(&["ceph", "local"])), StorageChoice::Use(s) if s == "zfs"));
    let mut o = RunOptions::default();
    o.non_interactive = true;
    assert!(matches!(storage_choice(&o, &[]), StorageChoice::Use(s) if s == "local-lvm"));
}
