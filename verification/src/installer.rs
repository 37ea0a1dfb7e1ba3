//! The `qm` commands that turn a downloaded image into a template, in order,
//! and the tally of a batch of installations.
use vstd::prelude::*;
use vstd::string::*;
use crate::catalog::{template_vm_name, vm_name, Template};
use crate::options::texts;
use crate::text::{
    chars_of, decimal, decimal_chars, has_prefix, lines, lines_of, split_once_chars, split_once_pair,
    starts_with, string_from_chars, trim, trim_chars,
};

verus! {

/// The arguments of `qm create` for a new template VM.
pub open spec fn create_args(vmid: Seq<char>, vm_name: Seq<char>) -> Seq<Seq<char>> {
    seq![
        "create"@, vmid, "--name"@, vm_name, "--memory"@, "2048"@, "--cpu"@, "host"@, "--net0"@,
        "virtio,bridge=vmbr0"@, "--agent"@, "enabled=1"@, "--ostype"@, "l26"@, "--bios"@, "seabios"@,
        "--machine"@, "q35"@, "--scsihw"@, "virtio-scsi-pci"@, "--serial0"@, "socket"@, "--vga"@,
        "serial0"@,
    ]
}

/// The arguments of `qm disk import` for the downloaded image.
pub open spec fn import_args(vmid: Seq<char>, image: Seq<char>, storage: Seq<char>) -> Seq<Seq<char>> {
    seq!["disk"@, "import"@, vmid, image, storage]
}

/// The arguments of `qm set` that attach the imported disk, the cloud-init
/// drive and the vendor snippet.
pub open spec fn configure_args(
    vmid: Seq<char>,
    disk_ref: Seq<char>,
    storage: Seq<char>,
    snippet: Seq<char>,
) -> Seq<Seq<char>> {
    seq![
        "set"@, vmid, "--scsi0"@, disk_ref + ",cache=writeback,discard=on,ssd=1"@, "--boot"@,
        "order=scsi0"@, "--ide2"@, storage + ":cloudinit"@, "--ipconfig0"@, "ip=dhcp"@, "--citype"@,
        "nocloud"@, "--cicustom"@, "vendor="@ + snippet,
    ]
}

/// The arguments of `qm resize` that grow the disk by 8G.
pub open spec fn resize_args(vmid: Seq<char>) -> Seq<Seq<char>> {
    seq!["resize"@, vmid, "scsi0"@, "+8G"@]
}

/// The arguments of `qm template` that turn the VM into a template.
pub open spec fn template_args(vmid: Seq<char>) -> Seq<Seq<char>> {
    seq!["template"@, vmid]
}

fn text(s: &str) -> (r: String)
    ensures
        r@ == s@,
{
    String::from_str(s)
}

fn joined(a: &str, b: &str) -> (r: String)
    ensures
        r@ == a@ + b@,
{
    let mut r = String::from_str(a);
    r.append(b);
    r
}

/// The arguments of `qm create`.
pub fn qm_create_args(vmid: &str, vm_name: &str) -> (args: Vec<String>)
    ensures
        texts(args@) == create_args(vmid@, vm_name@),
{
    let args = vec![
        text("create"), text(vmid), text("--name"), text(vm_name), text("--memory"), text("2048"),
        text("--cpu"), text("host"), text("--net0"), text("virtio,bridge=vmbr0"), text("--agent"),
        text("enabled=1"), text("--ostype"), text("l26"), text("--bios"), text("seabios"),
        text("--machine"), text("q35"), text("--scsihw"), text("virtio-scsi-pci"), text("--serial0"),
        text("socket"), text("--vga"), text("serial0"),
    ];
    assert(texts(args@) =~= create_args(vmid@, vm_name@));
    args
}

/// The arguments of `qm disk import`.
pub fn qm_import_args(vmid: &str, image: &str, storage: &str) -> (args: Vec<String>)
    ensures
        texts(args@) == import_args(vmid@, image@, storage@),
{
    let args = vec![text("disk"), text("import"), text(vmid), text(image), text(storage)];
    assert(texts(args@) =~= import_args(vmid@, image@, storage@));
    args
}

/// The arguments of `qm set`.
pub fn qm_configure_args(vmid: &str, disk_ref: &str, storage: &str, snippet: &str) -> (args: Vec<String>)
    ensures
        texts(args@) == configure_args(vmid@, disk_ref@, storage@, snippet@),
{
    let args = vec![
        text("set"), text(vmid), text("--scsi0"), joined(disk_ref, ",cache=writeback,discard=on,ssd=1"),
        text("--boot"), text("order=scsi0"), text("--ide2"), joined(storage, ":cloudinit"),
        text("--ipconfig0"), text("ip=dhcp"), text("--citype"), text("nocloud"), text("--cicustom"),
        joined("vendor=", snippet),
    ];
    assert(texts(args@) =~= configure_args(vmid@, disk_ref@, storage@, snippet@));
    args
}

/// The arguments of `qm resize`.
pub fn qm_resize_args(vmid: &str) -> (args: Vec<String>)
    ensures
        texts(args@) == resize_args(vmid@),
{
    let args = vec![text("resize"), text(vmid), text("scsi0"), text("+8G")];
    assert(texts(args@) =~= resize_args(vmid@));
    args
}

/// The arguments of `qm template`.
pub fn qm_template_args(vmid: &str) -> (args: Vec<String>)
    ensures
        texts(args@) == template_args(vmid@),
{
    let args = vec![text("template"), text(vmid)];
    assert(texts(args@) =~= template_args(vmid@));
    args
}

/// The disk that `qm disk import` added: the value, trimmed, of the first
/// line of `qm config` of the form `KEY: VALUE` whose key begins with `unused`.
pub open spec fn imported_disk(lines: Seq<Seq<char>>) -> Option<Seq<char>>
    decreases lines.len(),
{
    if lines.len() == 0 {
        None
    } else {
        match split_once_pair(lines[0], ':', ' ') {
            Some((key, value)) => if has_prefix(key, "unused"@) {
                Some(trim(value))
            } else {
                imported_disk(lines.drop_first())
            },
            None => imported_disk(lines.drop_first()),
        }
    }
}

/// The imported disk named in the output of `qm config`.
pub fn imported_disk_ref(config: &str) -> (disk: Option<String>)
    ensures
        match disk {
            Some(d) => imported_disk(lines_of(config@)) == Some(d@),
            None => imported_disk(lines_of(config@)) is None,
        },
{
    let chars = chars_of(config);
    let all = lines(chars.as_slice());
    let ghost lv = all.deep_view();
    let unused = chars_of("unused");
    let mut i: usize = 0;
    assert(lv.skip(0) =~= lv);
    while i < all.len()
        invariant
            i <= all@.len(),
            lv == all.deep_view(),
            lv == lines_of(config@),
            unused@ == "unused"@,
            imported_disk(lv.skip(i as int)) == imported_disk(lv),
        decreases all@.len() - i,
    {
        assert(lv.skip(i as int).drop_first() =~= lv.skip(i + 1));
        assert(lv.skip(i as int)[0] == all@[i as int]@);
        match split_once_chars(all[i].as_slice(), ':', ' ') {
            Some((key, value)) => {
                if starts_with(key.as_slice(), unused.as_slice()) {
                    let trimmed = trim_chars(value.as_slice());
                    return Some(string_from_chars(trimmed.as_slice()));
                }
            },
            None => {},
        }
        i = i + 1;
    }
    None
}


/// The step of an installation that runs next, or has just run.
#[derive(Clone, Copy, PartialEq, Eq, Structural, Debug)]
pub enum InstallStage {
    /// `qm create`.
    Create,
    /// `qm disk import`.
    Import,
    /// `qm config`, to find the imported disk.
    ReadConfig,
    /// `qm set`.
    Configure,
    /// `qm resize`.
    Resize,
    /// `qm template`.
    Convert,
    /// Removing the half-made VM after a failure.
    CleanUp,
    /// Nothing left to do.
    Done,
}

/// Why an installation failed.
#[derive(Clone, Copy, PartialEq, Eq, Structural, Debug)]
pub enum InstallFailure {
    /// The `qm` command of this step failed.
    Command(InstallStage),
    /// `qm config` could not be read after the disk import.
    ConfigUnreadable,
    /// `qm config` names no imported (`unused`) disk.
    NoImportedDisk,
}

/// What an installation does next.
pub enum InstallAction {
    /// Run `qm` with these arguments and tell whether it succeeded.
    RunQm(Vec<String>),
    /// Read `qm config` of the VM and hand over its output, if it could be read.
    ReadConfig,
    /// Remove the half-made VM (whatever comes of it, the installation has failed).
    CleanUp,
    /// The installation is over, with this outcome.
    Finished(Result<(), InstallFailure>),
}

/// The mathematical value of an [`InstallAction`].
pub enum InstallActionView {
    RunQm(Seq<Seq<char>>),
    ReadConfig,
    CleanUp,
    Finished(Result<(), InstallFailure>),
}

impl View for InstallAction {
    type V = InstallActionView;

    open spec fn view(&self) -> InstallActionView {
        match self {
            InstallAction::RunQm(args) => InstallActionView::RunQm(texts(args@)),
            InstallAction::ReadConfig => InstallActionView::ReadConfig,
            InstallAction::CleanUp => InstallActionView::CleanUp,
            InstallAction::Finished(r) => InstallActionView::Finished(*r),
        }
    }
}

/// The installation of one downloaded image as a template.
pub struct InstallJob {
    vmid: String,
    vm_name: String,
    image: String,
    storage: String,
    snippet: String,
    stage: InstallStage,
    failure: InstallFailure,
}

/// The state of an installation, as a mathematical value.
pub struct InstallJobView {
    pub vmid: Seq<char>,
    pub vm_name: Seq<char>,
    pub image: Seq<char>,
    pub storage: Seq<char>,
    pub snippet: Seq<char>,
    pub stage: InstallStage,
    pub failure: InstallFailure,
}

impl View for InstallJob {
    type V = InstallJobView;

    closed spec fn view(&self) -> InstallJobView {
        InstallJobView {
            vmid: self.vmid@,
            vm_name: self.vm_name@,
            image: self.image@,
            storage: self.storage@,
            snippet: self.snippet@,
            stage: self.stage,
            failure: self.failure,
        }
    }
}

/// A step runs a `qm` command.
pub open spec fn is_command_stage(stage: InstallStage) -> bool {
    stage == InstallStage::Create || stage == InstallStage::Import || stage == InstallStage::Configure
        || stage == InstallStage::Resize || stage == InstallStage::Convert
}

/// The same installation at another stage.
pub open spec fn at_stage(job: InstallJobView, stage: InstallStage) -> InstallJobView {
    InstallJobView { stage: stage, ..job }
}

/// The installation gives up with `failure` and cleans up.
pub open spec fn failing(job: InstallJobView, failure: InstallFailure) -> InstallJobView {
    InstallJobView { stage: InstallStage::CleanUp, failure: failure, ..job }
}

/// What follows the end of the `qm` command of the current step, or of the clean-up.
pub open spec fn after_command_spec(job: InstallJobView, succeeded: bool) -> (InstallJobView, InstallActionView) {
    match job.stage {
        InstallStage::CleanUp => (
            at_stage(job, InstallStage::Done),
            InstallActionView::Finished(Err(job.failure)),
        ),
        stage => if !succeeded {
            (failing(job, InstallFailure::Command(stage)), InstallActionView::CleanUp)
        } else {
            match stage {
                InstallStage::Create => (
                    at_stage(job, InstallStage::Import),
                    InstallActionView::RunQm(import_args(job.vmid, job.image, job.storage)),
                ),
                InstallStage::Import => (at_stage(job, InstallStage::ReadConfig), InstallActionView::ReadConfig),
                InstallStage::Configure => (
                    at_stage(job, InstallStage::Resize),
                    InstallActionView::RunQm(resize_args(job.vmid)),
                ),
                InstallStage::Resize => (
                    at_stage(job, InstallStage::Convert),
                    InstallActionView::RunQm(template_args(job.vmid)),
                ),
                _ => (at_stage(job, InstallStage::Done), InstallActionView::Finished(Ok(()))),
            }
        },
    }
}

/// What follows reading `qm config` (`None`: it could not be read).
pub open spec fn after_config_spec(job: InstallJobView, config: Option<Seq<char>>) -> (InstallJobView, InstallActionView) {
    match config {
        None => (failing(job, InstallFailure::ConfigUnreadable), InstallActionView::CleanUp),
        Some(c) => match imported_disk(lines_of(c)) {
            Some(disk) => (
                at_stage(job, InstallStage::Configure),
                InstallActionView::RunQm(configure_args(job.vmid, disk, job.storage, job.snippet)),
            ),
            None => (failing(job, InstallFailure::NoImportedDisk), InstallActionView::CleanUp),
        },
    }
}

impl InstallJob {
    /// Starts installing `template` from the image at `image` on `storage`,
    /// with the cloud-init vendor snippet `snippet`; the first action creates the VM.
    pub fn start(template: &Template, image: &str, storage: &str, snippet: &str) -> (r: (InstallJob, InstallAction))
        ensures
            r.0@ == (InstallJobView {
                vmid: decimal(template.vmid as int),
                vm_name: vm_name(template.name@),
                image: image@,
                storage: storage@,
                snippet: snippet@,
                stage: InstallStage::Create,
                failure: InstallFailure::Command(InstallStage::Create),
            }),
            r.1@ == InstallActionView::RunQm(create_args(decimal(template.vmid as int), vm_name(template.name@))),
    {
        let digits = decimal_chars(template.vmid as i64);
        let vmid = string_from_chars(digits.as_slice());
        let name = template_vm_name(template);
        let args = qm_create_args(vmid.as_str(), name.as_str());
        let job = InstallJob {
            vmid: vmid,
            vm_name: name,
            image: text(image),
            storage: text(storage),
            snippet: text(snippet),
            stage: InstallStage::Create,
            failure: InstallFailure::Command(InstallStage::Create),
        };
        (job, InstallAction::RunQm(args))
    }

    /// The current stage.
    pub fn stage(&self) -> (stage: InstallStage)
        ensures
            stage == self@.stage,
    {
        self.stage
    }

    /// The decimal VMID of the VM being installed.
    pub fn vmid_text(&self) -> (vmid: &str)
        ensures
            vmid@ == self@.vmid,
    {
        self.vmid.as_str()
    }

    /// Takes the outcome of the `qm` command of the current step (or of the
    /// clean-up) and gives the next action: on success the next command in
    /// the order create, import, config, set, resize, template; on any failure
    /// the clean-up; after the clean-up the failure.
    pub fn after_command(&mut self, succeeded: bool) -> (action: InstallAction)
        requires
            is_command_stage(old(self)@.stage) || old(self)@.stage == InstallStage::CleanUp,
        ensures
            (final(self)@, action@) == after_command_spec(old(self)@, succeeded),
    {
        match self.stage {
            InstallStage::CleanUp => {
                self.stage = InstallStage::Done;
                InstallAction::Finished(Err(self.failure))
            },
            stage => {
                if !succeeded {
                    self.stage = InstallStage::CleanUp;
                    self.failure = InstallFailure::Command(stage);
                    return InstallAction::CleanUp;
                }
                match stage {
                    InstallStage::Create => {
                        self.stage = InstallStage::Import;
                        InstallAction::RunQm(
                            qm_import_args(self.vmid.as_str(), self.image.as_str(), self.storage.as_str()),
                        )
                    },
                    InstallStage::Import => {
                        self.stage = InstallStage::ReadConfig;
                        InstallAction::ReadConfig
                    },
                    InstallStage::Configure => {
                        self.stage = InstallStage::Resize;
                        InstallAction::RunQm(qm_resize_args(self.vmid.as_str()))
                    },
                    InstallStage::Resize => {
                        self.stage = InstallStage::Convert;
                        InstallAction::RunQm(qm_template_args(self.vmid.as_str()))
                    },
                    _ => {
                        self.stage = InstallStage::Done;
                        InstallAction::Finished(Ok(()))
                    },
                }
            },
        }
    }

    /// Takes the output of `qm config` (`None` when it could not be read) and
    /// gives the next action: `qm set` with the imported disk, else the clean-up.
    pub fn after_config(&mut self, config: Option<&str>) -> (action: InstallAction)
        requires
            old(self)@.stage == InstallStage::ReadConfig,
        ensures
            (final(self)@, action@) == after_config_spec(
                old(self)@,
                match config {
                    Some(c) => Some(c@),
                    None => None,
                },
            ),
    {
        match config {
            None => {
                self.stage = InstallStage::CleanUp;
                self.failure = InstallFailure::ConfigUnreadable;
                InstallAction::CleanUp
            },
            Some(c) => match imported_disk_ref(c) {
                Some(disk) => {
                    self.stage = InstallStage::Configure;
                    InstallAction::RunQm(
                        qm_configure_args(
                            self.vmid.as_str(),
                            disk.as_str(),
                            self.storage.as_str(),
                            self.snippet.as_str(),
                        ),
                    )
                },
                None => {
                    self.stage = InstallStage::CleanUp;
                    self.failure = InstallFailure::NoImportedDisk;
                    InstallAction::CleanUp
                },
            },
        }
    }
}


/// Law: a failed command of any step is followed by the clean-up, and the
/// installation then ends with the failure of that step, whatever the
/// clean-up gives.
pub proof fn law_failure_cleans_up(job: InstallJobView, cleanup_ok: bool)
    requires
        is_command_stage(job.stage),
    ensures
        after_command_spec(job, false).1 == InstallActionView::CleanUp,
        after_command_spec(after_command_spec(job, false).0, cleanup_ok).1 == InstallActionView::Finished(
            Err(InstallFailure::Command(job.stage)),
        ),
        after_command_spec(after_command_spec(job, false).0, cleanup_ok).0.stage == InstallStage::Done,
{
}

/// Law: when every command succeeds and `qm config` names an imported disk,
/// an installation runs `qm create`, `qm disk import`, reads `qm config`,
/// then runs `qm set` with that disk, `qm resize` and `qm template`, in that
/// order, and ends in success.
pub proof fn law_successful_install(job: InstallJobView, config: Seq<char>)
    requires
        job.stage == InstallStage::Create,
        imported_disk(lines_of(config)) is Some,
    ensures
        ({
            let disk = imported_disk(lines_of(config))->0;
            let (s1, a1) = after_command_spec(job, true);
            let (s2, a2) = after_command_spec(s1, true);
            let (s3, a3) = after_config_spec(s2, Some(config));
            let (s4, a4) = after_command_spec(s3, true);
            let (s5, a5) = after_command_spec(s4, true);
            let (s6, a6) = after_command_spec(s5, true);
            &&& a1 == InstallActionView::RunQm(import_args(job.vmid, job.image, job.storage))
            &&& a2 == InstallActionView::ReadConfig
            &&& s2.stage == InstallStage::ReadConfig
            &&& a3 == InstallActionView::RunQm(configure_args(job.vmid, disk, job.storage, job.snippet))
            &&& a4 == InstallActionView::RunQm(resize_args(job.vmid))
            &&& a5 == InstallActionView::RunQm(template_args(job.vmid))
            &&& a6 == InstallActionView::Finished(Ok(()))
            &&& s6.stage == InstallStage::Done
        }),
{
}

/// The tally of a batch of installations.
pub struct InstallReport {
    installed: usize,
    failures: Vec<(String, String)>,
}

/// The mathematical value of an [`InstallReport`].
pub struct InstallReportView {
    /// How many templates were installed.
    pub installed: nat,
    /// The name of each template that failed, with the reason.
    pub failures: Seq<(Seq<char>, Seq<char>)>,
}

impl View for InstallReport {
    type V = InstallReportView;

    closed spec fn view(&self) -> InstallReportView {
        InstallReportView {
            installed: self.installed as nat,
            failures: self.failures@.map_values(|f: (String, String)| (f.0@, f.1@)),
        }
    }
}

impl InstallReport {
    /// A tally of nothing yet.
    pub fn new() -> (report: InstallReport)
        ensures
            report@.installed == 0,
            report@.failures.len() == 0,
    {
        let report = InstallReport { installed: 0, failures: Vec::new() };
        assert(report@.failures =~= Seq::<(Seq<char>, Seq<char>)>::empty());
        report
    }

    /// One more template was installed.
    pub fn record_success(&mut self)
        requires
            old(self)@.installed < usize::MAX,
        ensures
            final(self)@.installed == old(self)@.installed + 1,
            final(self)@.failures == old(self)@.failures,
    {
        self.installed = self.installed + 1;
    }

    /// The template `name` failed to install, for `reason`; the batch goes on.
    pub fn record_failure(&mut self, name: String, reason: String)
        ensures
            final(self)@.installed == old(self)@.installed,
            final(self)@.failures == old(self)@.failures.push((name@, reason@)),
    {
        self.failures.push((name, reason));
        assert(self@.failures =~= old(self)@.failures.push((name@, reason@)));
    }

    /// How many templates were installed.
    pub fn installed(&self) -> (n: usize)
        ensures
            n == self@.installed,
    {
        self.installed
    }

    /// The templates that failed, each with the reason.
    pub fn failures(&self) -> (failures: &Vec<(String, String)>)
        ensures
            failures@.map_values(|f: (String, String)| (f.0@, f.1@)) == self@.failures,
    {
        &self.failures
    }

    /// The outcome of the batch: success when no template failed, else the
    /// number of failures.
    pub fn outcome(&self) -> (r: Result<(), usize>)
        ensures
            r is Ok <==> self@.failures.len() == 0,
            r matches Err(n) ==> n >= 1 && n as int == self@.failures.len(),
    {
        if self.failures.len() == 0 {
            Ok(())
        } else {
            Err(self.failures.len())
        }
    }
}

/// A batch of installations, one template after another.
pub struct InstallBatch {
    total: usize,
    next: usize,
    report: InstallReport,
}

/// The state of a batch, as a mathematical value.
pub struct InstallBatchView {
    /// How many templates the batch installs.
    pub total: nat,
    /// The position of the next template to handle; those before it are done.
    pub next: nat,
    pub report: InstallReportView,
}

impl View for InstallBatch {
    type V = InstallBatchView;

    closed spec fn view(&self) -> InstallBatchView {
        InstallBatchView { total: self.total as nat, next: self.next as nat, report: self.report@ }
    }
}

/// Every handled template was counted once, as installed or as failed.
pub open spec fn batch_consistent(b: InstallBatchView) -> bool {
    &&& b.next <= b.total
    &&& b.report.installed + b.report.failures.len() == b.next
}

impl InstallBatch {
    /// A batch of `total` templates, none handled yet.
    pub fn new(total: usize) -> (batch: InstallBatch)
        ensures
            batch@.total == total,
            batch@.next == 0,
            batch@.report.installed == 0,
            batch@.report.failures.len() == 0,
            batch_consistent(batch@),
    {
        InstallBatch { total: total, next: 0, report: InstallReport::new() }
    }

    /// The position of the next template to install, or `None` when all are done.
    pub fn next_template(&self) -> (next: Option<usize>)
        ensures
            next == (if self@.next < self@.total {
                Some(self@.next as usize)
            } else {
                None::<usize>
            }),
    {
        if self.next < self.total {
            Some(self.next)
        } else {
            None
        }
    }

    /// Records how installing the next template went (`Err` with its name and
    /// the reason); the batch goes on with the template after it, whether or
    /// not this one failed.
    pub fn record(&mut self, result: Result<(), (String, String)>)
        requires
            batch_consistent(old(self)@),
            old(self)@.next < old(self)@.total,
        ensures
            batch_consistent(final(self)@),
            final(self)@.total == old(self)@.total,
            final(self)@.next == old(self)@.next + 1,
            match result {
                Ok(()) => final(self)@.report.installed == old(self)@.report.installed + 1
                    && final(self)@.report.failures == old(self)@.report.failures,
                Err((name, reason)) => final(self)@.report.installed == old(self)@.report.installed
                    && final(self)@.report.failures == old(self)@.report.failures.push((name@, reason@)),
            },
    {
        match result {
            Ok(()) => self.report.record_success(),
            Err((name, reason)) => self.report.record_failure(name, reason),
        }
        self.next = self.next + 1;
    }

    /// The tally so far.
    pub fn report(&self) -> (report: &InstallReport)
        ensures
            report@ == self@.report,
    {
        &self.report
    }

    /// The outcome of a finished batch: success exactly when every template
    /// was installed, else the number of templates that failed, at least one.
    pub fn outcome(&self) -> (r: Result<(), usize>)
        requires
            batch_consistent(self@),
            self@.next == self@.total,
        ensures
            r is Ok <==> self@.report.installed == self@.total,
            r matches Err(n) ==> n >= 1 && n as int == self@.total - self@.report.installed,
    {
        self.report.outcome()
    }
}

/// File name of the cloud-init vendor snippet.
pub open spec fn vendor_snippet_name() -> Seq<char> {
    "ckits-vendor-data.yaml"@
}

/// The volume that names the vendor snippet for `qm set --cicustom`.
pub fn vendor_snippet_volume() -> (volume: String)
    ensures
        volume@ == "local:snippets/"@ + vendor_snippet_name(),
{
    joined("local:snippets/", "ckits-vendor-data.yaml")
}

/// Whether the vendor snippet on disk (`None` when it could not be read)
/// must be rewritten with the bundled one.
pub fn snippet_needs_update(existing: Option<&str>, bundled: &str) -> (r: bool)
    ensures
        r == match existing {
            Some(e) => e@ != bundled@,
            None => true,
        },
{
    match existing {
        Some(e) => !crate::text::same_text(e, bundled),
        None => true,
    }
}

/// This node's name from the output of `hostname -s`: the output trimmed,
/// unless nothing is left.
pub fn node_name_from_hostname(output: &str) -> (name: Option<String>)
    ensures
        match name {
            Some(n) => trim(output@).len() > 0 && n@ == trim(output@),
            None => trim(output@).len() == 0,
        },
{
    let chars = chars_of(output);
    let trimmed = trim_chars(chars.as_slice());
    if trimmed.len() == 0 {
        None
    } else {
        Some(string_from_chars(trimmed.as_slice()))
    }
}

} // verus!
