//! The catalog of installable templates and the selection made from it.
use vstd::prelude::*;
use vstd::string::*;
use crate::options::{texts, OptionsView, RunOptions};
use crate::text::{
    lemma_deep_push, lemma_replace_char_absent, chars_of, has_prefix, has_suffix, replace_char, replace_chars, starts_with, ends_with,
    string_from_chars,
};
use crate::vmid::{contains_vmid, seq_has};

verus! {

/// One installable cloud-image template of the catalog.
#[derive(Clone, Debug)]
pub struct Template {
    /// Display name, such as "Ubuntu 24.04".
    pub name: String,
    /// VMID of the template (the catalog's base VMID until one is assigned).
    pub vmid: i32,
    /// Image URL, or the directory that lists the images when `artifact` is set.
    pub link: String,
    /// File-name prefix of the newest image to look up in the `link` directory.
    pub artifact: Option<String>,
}

/// A family of templates, such as all Ubuntu releases.
#[derive(Debug)]
pub struct Group {
    pub name: String,
    pub templates: Vec<Template>,
}

/// The mathematical value of a [`Template`].
pub struct TemplateView {
    pub name: Seq<char>,
    pub vmid: i32,
    pub link: Seq<char>,
    pub artifact: Option<Seq<char>>,
}

/// The mathematical value of a [`Group`].
pub struct GroupView {
    pub name: Seq<char>,
    pub templates: Seq<TemplateView>,
}

impl TemplateView {
    /// The same template installed under another VMID.
    pub open spec fn with_vmid(self, vmid: i32) -> TemplateView {
        TemplateView { vmid: vmid, ..self }
    }
}

impl DeepView for Template {
    type V = TemplateView;

    open spec fn deep_view(&self) -> TemplateView {
        TemplateView {
            name: self.name@,
            vmid: self.vmid,
            link: self.link@,
            artifact: match self.artifact {
                Some(a) => Some(a@),
                None => None,
            },
        }
    }
}

impl View for Template {
    type V = TemplateView;

    open spec fn view(&self) -> TemplateView {
        self.deep_view()
    }
}

impl DeepView for Group {
    type V = GroupView;

    open spec fn deep_view(&self) -> GroupView {
        GroupView { name: self.name@, templates: self.templates.deep_view() }
    }
}

impl View for Group {
    type V = GroupView;

    open spec fn view(&self) -> GroupView {
        self.deep_view()
    }
}

impl Template {
    /// A copy of this template.
    pub fn duplicate(&self) -> (copy: Template)
        ensures
            copy@ == self@,
    {
        self.with_vmid(self.vmid)
    }

    /// A copy of this template that carries `vmid` in place of its own.
    pub fn with_vmid(&self, vmid: i32) -> (copy: Template)
        ensures
            copy@ == self@.with_vmid(vmid),
    {
        let artifact = match &self.artifact {
            Some(a) => Some(a.clone()),
            None => None,
        };
        Template { name: self.name.clone(), vmid: vmid, link: self.link.clone(), artifact: artifact }
    }
}

/// All templates of the catalog, group after group, in catalog order.
pub open spec fn all_templates(groups: Seq<GroupView>) -> Seq<TemplateView>
    decreases groups.len(),
{
    if groups.len() == 0 {
        Seq::empty()
    } else {
        all_templates(groups.drop_last()) + groups.last().templates
    }
}

/// The VMID of each template of the catalog, in catalog order.
pub open spec fn catalog_vmids(groups: Seq<GroupView>) -> Seq<i32> {
    all_templates(groups).map_values(|t: TemplateView| t.vmid)
}

/// Every template of the catalog, group after group.
pub fn flatten_groups(groups: &[Group]) -> (all: Vec<Template>)
    ensures
        all.deep_view() == all_templates(group_views(groups@)),
{
    let ghost gv = group_views(groups@);
    let mut all: Vec<Template> = Vec::new();
    let mut i: usize = 0;
    while i < groups.len()
        invariant
            i <= groups@.len(),
            gv == group_views(groups@),
            all.deep_view() == all_templates(gv.take(i as int)),
        decreases groups@.len() - i,
    {
        let group = &groups[i];
        let ghost before = all.deep_view();
        let mut j: usize = 0;
        while j < group.templates.len()
            invariant
                j <= group.templates@.len(),
                all.deep_view() == before + group.templates.deep_view().take(j as int),
            decreases group.templates@.len() - j,
        {
            let copy = group.templates[j].duplicate();
            let ghost prev = all;
            all.push(copy);
            proof {
                lemma_deep_push(prev, all, copy);
                assert(all.deep_view() =~= before + group.templates.deep_view().take(j + 1));
            }
            j = j + 1;
        }
        assert(gv.take(i + 1).drop_last() =~= gv.take(i as int));
        assert(group.templates.deep_view().take(j as int) =~= group.templates.deep_view());
        i = i + 1;
    }
    assert(gv.take(i as int) =~= gv);
    all
}

/// The VMID of every template of the catalog, in catalog order.
pub fn collect_template_vmids(groups: &[Group]) -> (vmids: Vec<i32>)
    ensures
        vmids@ == catalog_vmids(group_views(groups@)),
{
    let all = flatten_groups(groups);
    let mut vmids: Vec<i32> = Vec::new();
    let mut i: usize = 0;
    while i < all.len()
        invariant
            i <= all@.len(),
            vmids@ == all.deep_view().take(i as int).map_values(|t: TemplateView| t.vmid),
        decreases all@.len() - i,
    {
        vmids.push(all[i].vmid);
        assert(vmids@ =~= all.deep_view().take(i + 1).map_values(|t: TemplateView| t.vmid));
        i = i + 1;
    }
    assert(all.deep_view().take(i as int) =~= all.deep_view());
    vmids
}




/// What std's `str::to_lowercase` returns for `s` (Unicode lower-casing).
pub uninterp spec fn str_lowercase(s: Seq<char>) -> Seq<char>;

/// The lowercase equivalent of `s` (std's `str::to_lowercase`).
#[verifier::external_body]
fn to_lowercase(s: &str) -> (r: String)
    ensures
        r@ == str_lowercase(s@),
{
    s.to_lowercase()
}

/// The VM name of a template: its name lower-cased, with each space turned
/// into `-` and each `.` dropped ("Ubuntu 24.04" becomes "ubuntu-2404").
pub open spec fn vm_name(name: Seq<char>) -> Seq<char> {
    replace_char(replace_char(str_lowercase(name), ' ', seq!['-']), '.', Seq::empty())
}

/// The name of the VM that holds `template`.
pub fn template_vm_name(template: &Template) -> (name: String)
    ensures
        name@ == vm_name(template.name@),
        !name@.contains(' '),
        !name@.contains('.'),
{
    proof {
        let lowered = str_lowercase(template.name@);
        let dashed = replace_char(lowered, ' ', seq!['-']);
        assert(!seq!['-'].contains(' ')) by {
            if seq!['-'].contains(' ') {
                let k = choose|k: int| 0 <= k < 1 && seq!['-'][k] == ' ';
            }
        }
        lemma_replace_char_absent(lowered, ' ', seq!['-'], ' ');
        lemma_replace_char_absent(dashed, '.', Seq::empty(), ' ');
        lemma_replace_char_absent(dashed, '.', Seq::empty(), '.');
    }
    let lowered = to_lowercase(template.name.as_str());
    let chars = chars_of(lowered.as_str());
    let dash: Vec<char> = vec!['-'];
    let dashed = replace_chars(chars.as_slice(), ' ', dash.as_slice());
    let nothing: Vec<char> = Vec::new();
    let dotless = replace_chars(dashed.as_slice(), '.', nothing.as_slice());
    assert(dash@ =~= seq!['-']);
    assert(nothing@ =~= Seq::<char>::empty());
    string_from_chars(dotless.as_slice())
}

/// How the templates to install are chosen.
pub enum TemplateSelection {
    /// The options settle the choice.
    Chosen(Vec<Template>),
    /// The operator picks among `templates`, shown with `labels`, one each.
    Ask { labels: Vec<String>, templates: Vec<Template> },
}

/// The label of a template in the selection list: "name (group)".
pub open spec fn template_label(template: Seq<char>, group: Seq<char>) -> Seq<char> {
    template + " ("@ + group + ")"@
}

/// The labels of the catalog's templates, group after group.
pub open spec fn catalog_labels(groups: Seq<GroupView>) -> Seq<Seq<char>>
    decreases groups.len(),
{
    if groups.len() == 0 {
        Seq::empty()
    } else {
        catalog_labels(groups.drop_last()) + groups.last().templates.map_values(
            |t: TemplateView| template_label(t.name, groups.last().name),
        )
    }
}

/// The templates whose VMID is one of `vmids`, in catalog order.
pub open spec fn with_vmids(all: Seq<TemplateView>, vmids: Seq<i32>) -> Seq<TemplateView> {
    all.filter(|t: TemplateView| seq_has(vmids, t.vmid as int))
}

/// The selection that the options make of the catalog `groups`: all templates
/// under `--all`; those whose base VMID was listed under `--templates`; none
/// under `--non-interactive`; else the operator picks from the labelled list.
pub open spec fn selection_spec(groups: Seq<GroupView>, options: OptionsView) -> Option<Seq<TemplateView>> {
    let all = all_templates(groups);
    if options.install_all {
        Some(all)
    } else if options.template_vmids.len() > 0 {
        Some(with_vmids(all, options.template_vmids))
    } else if options.non_interactive || all.len() == 0 {
        Some(Seq::empty())
    } else {
        None
    }
}

/// The values of a list of groups.
pub open spec fn group_views(groups: Seq<Group>) -> Seq<GroupView> {
    groups.map_values(|g: Group| g@)
}

/// Chooses the templates to install from the catalog `groups`, or says what
/// the operator is to pick from.
pub fn select_templates(groups: &[Group], options: &RunOptions) -> (selection: TemplateSelection)
    ensures
        match selection {
            TemplateSelection::Chosen(chosen) => selection_spec(group_views(groups@), options@)
                == Some(chosen.deep_view()),
            TemplateSelection::Ask { labels, templates } => {
                &&& selection_spec(group_views(groups@), options@) is None
                &&& templates.deep_view() == all_templates(group_views(groups@))
                &&& texts(labels@) == catalog_labels(group_views(groups@))
            },
        },
{
    let all = flatten_groups(groups);
    if options.install_all {
        return TemplateSelection::Chosen(all);
    }
    if options.template_vmids.len() > 0 {
        let ghost pred = |t: TemplateView| seq_has(options.template_vmids@, t.vmid as int);
        let mut chosen: Vec<Template> = Vec::new();
        let mut i: usize = 0;
        while i < all.len()
            invariant
                i <= all@.len(),
                pred == (|t: TemplateView| seq_has(options.template_vmids@, t.vmid as int)),
                chosen.deep_view() == all.deep_view().take(i as int).filter(pred),
            decreases all@.len() - i,
        {
            assert(all.deep_view().take(i + 1).drop_last() =~= all.deep_view().take(i as int));
            assert(all.deep_view().take(i + 1).last() == all@[i as int]@);
            reveal_with_fuel(Seq::filter, 1);
            if contains_vmid(options.template_vmids.as_slice(), all[i].vmid as i64) {
                let copy = all[i].duplicate();
                let ghost before = chosen;
                chosen.push(copy);
                proof {
                    lemma_deep_push(before, chosen, copy);
                }
            }
            i = i + 1;
        }
        assert(all.deep_view().take(i as int) =~= all.deep_view());
        return TemplateSelection::Chosen(chosen);
    }
    if options.non_interactive || all.len() == 0 {
        return TemplateSelection::Chosen(Vec::new());
    }
    let labels = catalog_label_list(groups);
    TemplateSelection::Ask { labels: labels, templates: all }
}

/// The label of every template of the catalog, group after group.
fn catalog_label_list(groups: &[Group]) -> (labels: Vec<String>)
    ensures
        texts(labels@) == catalog_labels(group_views(groups@)),
{
    let ghost gv = group_views(groups@);
    let mut labels: Vec<String> = Vec::new();
    let mut i: usize = 0;
    while i < groups.len()
        invariant
            i <= groups@.len(),
            gv == group_views(groups@),
            texts(labels@) == catalog_labels(gv.take(i as int)),
        decreases groups@.len() - i,
    {
        let group = &groups[i];
        let ghost before = texts(labels@);
        let ghost names = group.templates.deep_view();
        let mut j: usize = 0;
        while j < group.templates.len()
            invariant
                j <= group.templates@.len(),
                names == group.templates.deep_view(),
                texts(labels@) == before + names.take(j as int).map_values(
                    |t: TemplateView| template_label(t.name, group.name@),
                ),
            decreases group.templates@.len() - j,
        {
            let mut label = group.templates[j].name.clone();
            label.append(" (");
            label.append(group.name.as_str());
            label.append(")");
            assert(names[j as int].name == group.templates@[j as int].name@);
            let ghost prev = labels@;
            labels.push(label);
            assert(texts(labels@) =~= before + names.take(j + 1).map_values(
                |t: TemplateView| template_label(t.name, group.name@),
            )) by {
                assert(texts(labels@) =~= texts(prev).push(label@));
                assert(names.take(j + 1) =~= names.take(j as int).push(names[j as int]));
            }
            j = j + 1;
        }
        assert(gv.take(i + 1).drop_last() =~= gv.take(i as int));
        assert(gv[i as int] == group@);
        assert(names.take(j as int) =~= names);
        i = i + 1;
    }
    assert(gv.take(i as int) =~= gv);
    labels
}

/// The templates the operator picked, by their positions in `templates`.
pub fn pick_selected(templates: &[Template], selections: &[usize]) -> (picked: Vec<Template>)
    requires
        forall|k: int| 0 <= k < selections@.len() ==> #[trigger] selections@[k] < templates@.len(),
    ensures
        picked.deep_view() == selections@.map_values(|k: usize| templates@[k as int]@),
{
    let mut picked: Vec<Template> = Vec::new();
    let mut i: usize = 0;
    while i < selections.len()
        invariant
            i <= selections@.len(),
            forall|k: int| 0 <= k < selections@.len() ==> #[trigger] selections@[k] < templates@.len(),
            picked.deep_view() == selections@.take(i as int).map_values(|k: usize| templates@[k as int]@),
        decreases selections@.len() - i,
    {
        let copy = templates[selections[i]].duplicate();
        let ghost before = picked;
        picked.push(copy);
        proof {
            lemma_deep_push(before, picked, copy);
            assert(selections@.take(i + 1) =~= selections@.take(i as int).push(selections@[i as int]));
        }
        assert(picked.deep_view() =~= selections@.take(i + 1).map_values(|k: usize| templates@[k as int]@));
        i = i + 1;
    }
    assert(selections@.take(i as int) =~= selections@);
    picked
}

/// A command-line argument names a custom catalog: it is no flag, and it is an
/// `http://` or `https://` URL or a path ending in `.json`.
pub open spec fn is_catalog_source(arg: Seq<char>) -> bool {
    &&& !has_prefix(arg, "-"@)
    &&& (has_prefix(arg, "http://"@) || has_prefix(arg, "https://"@) || has_suffix(arg, ".json"@))
}

/// The first argument that names a custom catalog.
pub open spec fn catalog_source(args: Seq<Seq<char>>) -> Option<int> {
    if exists|i: int| 0 <= i < args.len() && is_catalog_source(#[trigger] args[i]) {
        Some(
            choose|i: int|
                0 <= i < args.len() && is_catalog_source(args[i]) && forall|k: int|
                    0 <= k < i ==> !is_catalog_source(#[trigger] args[k]),
        )
    } else {
        None
    }
}

/// Whether an argument names a custom catalog.
pub fn names_catalog_source(arg: &str) -> (r: bool)
    ensures
        r == is_catalog_source(arg@),
{
    let chars = chars_of(arg);
    let dash = chars_of("-");
    let http = chars_of("http://");
    let https = chars_of("https://");
    let json = chars_of(".json");
    !starts_with(chars.as_slice(), dash.as_slice()) && (starts_with(chars.as_slice(), http.as_slice())
        || starts_with(chars.as_slice(), https.as_slice()) || ends_with(chars.as_slice(), json.as_slice()))
}

/// The position, among the command-line arguments, of the first one that
/// names a custom catalog.
pub fn find_catalog_source(args: &[String]) -> (r: Option<usize>)
    ensures
        match r {
            Some(i) => catalog_source(texts(args@)) == Some(i as int),
            None => catalog_source(texts(args@)) is None,
        },
{
    let ghost av = texts(args@);
    let mut i: usize = 0;
    while i < args.len()
        invariant
            i <= args@.len(),
            av == texts(args@),
            forall|k: int| 0 <= k < i ==> !is_catalog_source(#[trigger] av[k]),
        decreases args@.len() - i,
    {
        if names_catalog_source(args[i].as_str()) {
            assert(is_catalog_source(av[i as int]));
            let ghost w = choose|w: int|
                0 <= w < av.len() && is_catalog_source(av[w]) && forall|k: int|
                    0 <= k < w ==> !is_catalog_source(#[trigger] av[k]);
            assert(w == i) by {
                if w > i {
                    assert(!is_catalog_source(av[i as int]));
                }
            }
            return Some(i);
        }
        i = i + 1;
    }
    None
}

/// Whether a catalog source is fetched over HTTP rather than read from a file.
pub fn is_remote_source(source: &str) -> (r: bool)
    ensures
        r == (has_prefix(source@, "http://"@) || has_prefix(source@, "https://"@)),
{
    let chars = chars_of(source);
    let http = chars_of("http://");
    let https = chars_of("https://");
    starts_with(chars.as_slice(), http.as_slice()) || starts_with(chars.as_slice(), https.as_slice())
}


/// Each template of each group is among all templates of the catalog.
proof fn lemma_all_templates_has(groups: Seq<GroupView>, g: int, t: int)
    requires
        0 <= g < groups.len(),
        0 <= t < groups[g].templates.len(),
    ensures
        all_templates(groups).contains(groups[g].templates[t]),
    decreases groups.len(),
{
    let init = groups.drop_last();
    let a = all_templates(init);
    let all = all_templates(groups);
    assert(all == a + groups.last().templates);
    if g == groups.len() - 1 {
        assert(all[a.len() + t] == groups[g].templates[t]);
    } else {
        assert(init[g] == groups[g]);
        lemma_all_templates_has(init, g, t);
        let i = choose|i: int| 0 <= i < a.len() && a[i] == groups[g].templates[t];
        assert(all[i] == a[i]);
    }
}

/// Law: under `--all` the selection is every template of the catalog, group
/// after group in catalog order, whatever `--non-interactive` or
/// `--templates` say; each template of each group is among them.
pub proof fn law_all_selects_every_template(groups: Seq<GroupView>, options: OptionsView)
    requires
        options.install_all,
    ensures
        selection_spec(groups, options) == Some(all_templates(groups)),
        forall|g: int, t: int|
            0 <= g < groups.len() && 0 <= t < groups[g].templates.len() ==> selection_spec(groups, options)->0.contains(
                #[trigger] groups[g].templates[t],
            ),
{
    assert forall|g: int, t: int|
        0 <= g < groups.len() && 0 <= t < groups[g].templates.len() implies selection_spec(
        groups,
        options,
    )->0.contains(#[trigger] groups[g].templates[t]) by {
        lemma_all_templates_has(groups, g, t);
    }
}

/// Law: without `--all`, a `--templates` list selects exactly the catalog's
/// templates whose VMID it lists, whatever `--non-interactive` says.
pub proof fn law_listed_templates_selected(groups: Seq<GroupView>, options: OptionsView)
    requires
        !options.install_all,
        options.template_vmids.len() > 0,
    ensures
        selection_spec(groups, options) is Some,
        forall|t: TemplateView|
            #[trigger] selection_spec(groups, options)->0.contains(t) <==> all_templates(groups).contains(t)
                && options.template_vmids.contains(t.vmid),
{
    broadcast use vstd::seq_lib::group_filter_ensures;
    let all = all_templates(groups);
    let pred = |t: TemplateView| seq_has(options.template_vmids, t.vmid as int);
    assert forall|t: TemplateView|
        #[trigger] selection_spec(groups, options)->0.contains(t) <==> all.contains(t)
            && options.template_vmids.contains(t.vmid) by {
        let sel = all.filter(pred);
        if sel.contains(t) {
            all.lemma_filter_contains_rev(pred, t);
            let i = choose|i: int| 0 <= i < sel.len() && sel[i] == t;
            assert(pred(sel[i]));
            let j = choose|j: int| 0 <= j < options.template_vmids.len() && options.template_vmids[j] as int == t.vmid as int;
            assert(options.template_vmids[j] == t.vmid);
        }
        if all.contains(t) && options.template_vmids.contains(t.vmid) {
            let i = choose|i: int| 0 <= i < all.len() && all[i] == t;
            let j = choose|j: int| 0 <= j < options.template_vmids.len() && options.template_vmids[j] == t.vmid;
            assert(seq_has(options.template_vmids, t.vmid as int));
            assert(pred(all[i]));
        }
    }
}

/// Law: an argument names a custom catalog when it does not start with `-`
/// and ends in `.json` (a path, relative or absolute) or starts with
/// `http://` or `https://`; an argument that starts with `-` never does, nor
/// does one of another shape.
pub proof fn law_catalog_source_shape(arg: Seq<char>)
    ensures
        arg.len() >= 5 && arg[0] != '-' && arg.subrange(arg.len() - 5, arg.len() as int) == ".json"@
            ==> is_catalog_source(arg),
        arg.len() >= 7 && arg[0] != '-' && arg.subrange(0, 7) == "http://"@ ==> is_catalog_source(arg),
        arg.len() >= 8 && arg[0] != '-' && arg.subrange(0, 8) == "https://"@ ==> is_catalog_source(arg),
        arg.len() > 0 && arg[0] == '-' ==> !is_catalog_source(arg),
        is_catalog_source(arg) ==> arg.len() > 0 && arg[0] != '-' && ((arg.len() >= 5 && arg.subrange(
            arg.len() - 5,
            arg.len() as int,
        ) == ".json"@) || (arg.len() >= 7 && arg.subrange(0, 7) == "http://"@) || (arg.len() >= 8
            && arg.subrange(0, 8) == "https://"@)),
{
    reveal_strlit("-");
    reveal_strlit(".json");
    reveal_strlit("http://");
    reveal_strlit("https://");
    assert(arg.len() >= 5 ==> arg.skip(arg.len() - 5) =~= arg.subrange(arg.len() - 5, arg.len() as int));
    assert(arg.len() >= 7 ==> arg.take(7) =~= arg.subrange(0, 7));
    assert(arg.len() >= 8 ==> arg.take(8) =~= arg.subrange(0, 8));
    if arg.len() > 0 {
        assert(has_prefix(arg, "-"@) <==> arg[0] == '-') by {
            if arg[0] == '-' {
                assert(arg.take(1) =~= "-"@);
            }
            if has_prefix(arg, "-"@) {
                assert(arg.take(1)[0] == arg[0]);
            }
        }
    }
    if is_catalog_source(arg) && arg.len() == 0 {
        assert(!has_suffix(arg, ".json"@));
    }
}


/// Law: under `--non-interactive`, without `--all` and without a
/// `--templates` list, nothing is selected and the operator is not asked;
/// the operator is asked only when nothing settles the selection and the
/// catalog has templates.
pub proof fn law_selection_without_list(groups: Seq<GroupView>, options: OptionsView)
    requires
        !options.install_all,
        options.template_vmids.len() == 0,
    ensures
        options.non_interactive ==> selection_spec(groups, options) == Some(Seq::<TemplateView>::empty()),
        selection_spec(groups, options) is None <==> !options.non_interactive && all_templates(groups).len() > 0,
{
}

} // verus!
