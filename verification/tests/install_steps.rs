use template_downloader::catalog::Template;
use template_downloader::installer::{
    imported_disk_ref, node_name_from_hostname, qm_configure_args, qm_create_args, qm_import_args,
    qm_resize_args, qm_template_args, snippet_needs_update, vendor_snippet_volume, InstallAction,
    InstallBatch, InstallFailure, InstallJob, InstallReport, InstallStage,
};

fn template() -> Template {
    Template { name: "Ubuntu 26.04".to_string(), vmid: 1102, link: "https://x/img".to_string(), artifact: None }
}

fn qm(action: &InstallAction) -> Vec<String> {
    match action {
        InstallAction::RunQm(args) => args.clone(),
        _ => panic!("expected a qm command"),
    }
}

const CONFIG: &str = "boot: order=ide2\ncores: 1\nunused0:   local-lvm:vm-1102-disk-0  \nunused1: local-lvm:vm-1102-disk-1\n";

#[test]
fn create_command_arguments() {
    let args = qm_create_args("1102", "ubuntu-2604");
    assert_eq!(
        args,
        vec![
            "create", "1102", "--name", "ubuntu-2604", "--memory", "2048", "--cpu", "host", "--net0",
            "virtio,bridge=vmbr0", "--agent", "enabled=1", "--ostype", "l26", "--bios", "seabios", "--machine",
            "q35", "--scsihw", "virtio-scsi-pci", "--serial0", "socket", "--vga", "serial0",
        ]
    );
    assert_eq!(qm_import_args("1102", "/tmp/a.img", "local-lvm"), vec!["disk", "import", "1102", "/tmp/a.img", "local-lvm"]);
    assert_eq!(
        qm_configure_args("1102", "local-lvm:vm-1102-disk-0", "local-lvm", "local:snippets/ckits-vendor-data.yaml"),
        vec![
            "set", "1102", "--scsi0", "local-lvm:vm-1102-disk-0,cache=writeback,discard=on,ssd=1", "--boot",
            "order=scsi0", "--ide2", "local-lvm:cloudinit", "--ipconfig0", "ip=dhcp", "--citype", "nocloud",
            "--cicustom", "vendor=local:snippets/ckits-vendor-data.yaml",
        ]
    );
    assert_eq!(qm_resize_args("1102"), vec!["resize", "1102", "scsi0", "+8G"]);
    assert_eq!(qm_template_args("1102"), vec!["template", "1102"]);
}

#[test]
fn imported_disk_is_first_unused_entry() {
    assert_eq!(imported_disk_ref(CONFIG).as_deref(), Some("local-lvm:vm-1102-disk-0"));
    assert_eq!(imported_disk_ref("scsi0: local-lvm:vm-1-disk-0\n"), None);
    assert_eq!(imported_disk_ref(""), None);
    assert_eq!(imported_disk_ref("unused0:x\nunusedX: y\n").as_deref(), Some("y"));
}

#[test]
fn successful_install_runs_commands_in_order() {
    let (mut job, first) = InstallJob::start(&template(), "/tmp/noble.img", "local-lvm", "local:snippets/v.yaml");
    assert_eq!(job.vmid_text(), "1102");
    assert_eq!(qm(&first)[..4], ["create", "1102", "--name", "ubuntu-2604"]);
    let import = job.after_command(true);
    assert_eq!(qm(&import), vec!["disk", "import", "1102", "/tmp/noble.img", "local-lvm"]);
    assert!(matches!(job.after_command(true), InstallAction::ReadConfig));
    let set = job.after_config(Some(CONFIG));
    assert_eq!(qm(&set)[3], "local-lvm:vm-1102-disk-0,cache=writeback,discard=on,ssd=1");
    assert_eq!(qm(&job.after_command(true)), vec!["resize", "1102", "scsi0", "+8G"]);
    assert_eq!(qm(&job.after_command(true)), vec!["template", "1102"]);
    assert!(matches!(job.after_command(true), InstallAction::Finished(Ok(()))));
    assert_eq!(job.stage(), InstallStage::Done);
}

#[test]
fn failed_command_cleans_up() {
    let (mut job, _) = InstallJob::start(&template(), "/tmp/noble.img", "local-lvm", "v");
    job.after_command(true);
    assert!(matches!(job.after_command(false), InstallAction::CleanUp));
    assert!(matches!(
        job.after_command(false),
        InstallAction::Finished(Err(InstallFailure::Command(InstallStage::Import)))
    ));
}

#[test]
fn missing_disk_cleans_up() {
    let (mut job, _) = InstallJob::start(&template(), "/tmp/noble.img", "local-lvm", "v");
    job.after_command(true);
    job.after_command(true);
    assert!(matches!(job.after_config(Some("boot: order=scsi0\n")), InstallAction::CleanUp));
    assert!(matches!(job.after_command(true), InstallAction::Finished(Err(InstallFailure::NoImportedDisk))));
    let (mut job, _) = InstallJob::start(&template(), "/tmp/noble.img", "local-lvm", "v");
    job.after_command(true);
    job.after_command(true);
    assert!(matches!(job.after_config(None), InstallAction::CleanUp));
    assert!(matches!(job.after_command(true), InstallAction::Finished(Err(InstallFailure::ConfigUnreadable))));
}

#[test]
fn batch_report_counts_and_continues() {
    let mut report = InstallReport::new();
    assert_eq!(report.outcome(), Ok(()));
    report.record_success();
    report.record_failure("CentOS Stream 9".to_string(), "HTTP 403".to_string());
    report.record_success();
    assert_eq!(report.installed(), 2);
    assert_eq!(report.failures().len(), 1);
    assert_eq!(report.outcome(), Err(1));
}

#[test]
fn snippet_and_node_name() {
    assert_eq!(vendor_snippet_volume(), "local:snippets/ckits-vendor-data.yaml");
    assert!(snippet_needs_update(None, "a"));
    assert!(snippet_needs_update(Some("old"), "new"));
    assert!(!snippet_needs_update(Some("same"), "same"));
    assert_eq!(node_name_from_hostname("pve1\n").as_deref(), Some("pve1"));
    assert_eq!(node_name_from_hostname(" \n"), None);
}

#[test]
fn batch_goes_on_after_a_failure() {
    let mut batch = InstallBatch::new(3);
    assert_eq!(batch.next_template(), Some(0));
    batch.record(Err(("CentOS Stream 9".to_string(), "HTTP 403".to_string())));
    assert_eq!(batch.next_template(), Some(1));
    batch.record(Ok(()));
    batch.record(Ok(()));
    assert_eq!(batch.next_template(), None);
    assert_eq!(batch.outcome(), Err(1));
    assert_eq!(batch.report().installed(), 2);
    let mut batch = InstallBatch::new(1);
    batch.record(Ok(()));
    assert_eq!(batch.outcome(), Ok(()));
    assert_eq!(InstallBatch::new(0).outcome(), Ok(()));
}
