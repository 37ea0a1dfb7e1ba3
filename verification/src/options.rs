//! Command-line options of a run and the choice of storage.
use vstd::prelude::*;
use crate::text::{
    chars_of, first_word, first_word_chars, lines, lines_of, parse_i32, parse_i32_chars, same_text,
    split_chars, split_on, string_from_chars, trim, trim_chars,
};

verus! {

/// What the command line asked for.
#[derive(Debug)]
pub struct RunOptions {
    /// Storage pool for VM disks (`--storage`, `-s`).
    pub storage: Option<String>,
    /// Base VMIDs of the templates to install (`--templates`, `-t`).
    pub template_vmids: Vec<i32>,
    /// Install every template of the catalog (`--all`).
    pub install_all: bool,
    /// Replace local copies without asking (`--yes`, `-y`).
    pub assume_yes: bool,
    /// Never prompt (`--non-interactive`).
    pub non_interactive: bool,
}

/// The mathematical value of [`RunOptions`].
pub struct OptionsView {
    pub storage: Option<Seq<char>>,
    pub template_vmids: Seq<i32>,
    pub install_all: bool,
    pub assume_yes: bool,
    pub non_interactive: bool,
}

impl View for RunOptions {
    type V = OptionsView;

    open spec fn view(&self) -> OptionsView {
        OptionsView {
            storage: match self.storage {
                Some(s) => Some(s@),
                None => None,
            },
            template_vmids: self.template_vmids@,
            install_all: self.install_all,
            assume_yes: self.assume_yes,
            non_interactive: self.non_interactive,
        }
    }
}

/// The options of a run given no arguments.
pub open spec fn no_options() -> OptionsView {
    OptionsView {
        storage: None,
        template_vmids: Seq::empty(),
        install_all: false,
        assume_yes: false,
        non_interactive: false,
    }
}

impl Default for RunOptions {
    fn default() -> (options: RunOptions)
        ensures
            options@ == no_options(),
    {
        RunOptions {
            storage: None,
            template_vmids: Vec::new(),
            install_all: false,
            assume_yes: false,
            non_interactive: false,
        }
    }
}

/// The VMIDs listed in a comma-separated value: each piece, trimmed, that
/// parses as an `i32`; the others are left out.
pub open spec fn vmid_list(pieces: Seq<Seq<char>>) -> Seq<i32>
    decreases pieces.len(),
{
    if pieces.len() == 0 {
        Seq::empty()
    } else {
        let rest = vmid_list(pieces.drop_last());
        match parse_i32(trim(pieces.last())) {
            Some(v) => rest.push(v),
            None => rest,
        }
    }
}

/// The options that arguments `args[i..]` give on top of `acc`: each flag
/// sets its option, `--storage`/`-s` and `--templates`/`-t` take the next
/// argument as their value, and anything else is ignored.
pub open spec fn options_from(args: Seq<Seq<char>>, i: int, acc: OptionsView) -> OptionsView
    decreases args.len() + 1 - i,
{
    if i < 0 || i >= args.len() {
        acc
    } else {
        let a = args[i];
        if a == "--storage"@ || a == "-s"@ {
            options_from(
                args,
                i + 2,
                OptionsView {
                    storage: if i + 1 < args.len() {
                        Some(args[i + 1])
                    } else {
                        None
                    },
                    ..acc
                },
            )
        } else if a == "--templates"@ || a == "-t"@ {
            options_from(
                args,
                i + 2,
                if i + 1 < args.len() {
                    OptionsView { template_vmids: vmid_list(split_on(args[i + 1], ',')), ..acc }
                } else {
                    acc
                },
            )
        } else if a == "--all"@ {
            options_from(args, i + 1, OptionsView { install_all: true, ..acc })
        } else if a == "--yes"@ || a == "-y"@ {
            options_from(args, i + 1, OptionsView { assume_yes: true, ..acc })
        } else if a == "--non-interactive"@ {
            options_from(args, i + 1, OptionsView { non_interactive: true, ..acc })
        } else {
            options_from(args, i + 1, acc)
        }
    }
}

/// The views of a list of strings.
pub open spec fn texts(v: Seq<String>) -> Seq<Seq<char>> {
    v.map_values(|s: String| s@)
}

/// The VMIDs listed in a `--templates` value.
pub fn parse_vmid_list(value: &str) -> (vmids: Vec<i32>)
    ensures
        vmids@ == vmid_list(split_on(value@, ',')),
{
    let chars = chars_of(value);
    let pieces = split_chars(chars.as_slice(), ',');
    let ghost pv = pieces.deep_view();
    let mut vmids: Vec<i32> = Vec::new();
    let mut i: usize = 0;
    while i < pieces.len()
        invariant
            i <= pieces@.len(),
            pv == pieces.deep_view(),
            pv == split_on(value@, ','),
            vmids@ == vmid_list(pv.take(i as int)),
        decreases pieces@.len() - i,
    {
        assert(pv.take(i + 1).drop_last() =~= pv.take(i as int));
        assert(pv.take(i + 1).last() == pieces@[i as int]@);
        let trimmed = trim_chars(pieces[i].as_slice());
        match parse_i32_chars(trimmed.as_slice()) {
            Some(v) => vmids.push(v),
            None => {},
        }
        i = i + 1;
    }
    assert(pv.take(i as int) =~= pv);
    vmids
}

/// The options that the command-line arguments (without the program name) give.
pub fn parse_args(args: &[String]) -> (options: RunOptions)
    ensures
        options@ == options_from(texts(args@), 0, no_options()),
{
    let ghost av = texts(args@);
    let mut options = RunOptions::default();
    let n = args.len();
    let mut index: usize = 0;
    while index < n
        invariant
            n == args@.len(),
            av == texts(args@),
            index <= n,
            options_from(av, index as int, options@) == options_from(av, 0, no_options()),
        decreases n - index,
    {
        let a = args[index].as_str();
        assert(a@ == av[index as int]);
        assert(index + 1 < n ==> args@[index + 1]@ == av[index + 1]);
        let ghost i0 = index as int;
        let ghost o0 = options@;
        if same_text(a, "--storage") || same_text(a, "-s") {
            if index + 1 < n {
                options.storage = Some(args[index + 1].clone());
                index = index + 2;
                assert(options_from(av, index as int, options@) == options_from(av, i0, o0));
            } else {
                options.storage = None;
                index = n;
                assert(options_from(av, i0 + 2, options@) == options@);
                assert(options_from(av, index as int, options@) == options_from(av, i0, o0));
            }
        } else if same_text(a, "--templates") || same_text(a, "-t") {
            if index + 1 < n {
                options.template_vmids = parse_vmid_list(args[index + 1].as_str());
                index = index + 2;
                assert(options_from(av, index as int, options@) == options_from(av, i0, o0));
            } else {
                index = n;
                assert(options_from(av, i0 + 2, options@) == options@);
                assert(options_from(av, index as int, options@) == options_from(av, i0, o0));
            }
        } else {
            if same_text(a, "--all") {
                options.install_all = true;
            } else if same_text(a, "--yes") || same_text(a, "-y") {
                options.assume_yes = true;
            } else if same_text(a, "--non-interactive") {
                options.non_interactive = true;
            }
            index = index + 1;
            assert(options_from(av, index as int, options@) == options_from(av, i0, o0));
        }
    }
    options
}

/// The storage that the options settle without asking: the one given, else
/// `local-lvm` under `--non-interactive`.
pub open spec fn preset_storage(options: OptionsView) -> Option<Seq<char>> {
    match options.storage {
        Some(s) => Some(s),
        None => if options.non_interactive {
            Some("local-lvm"@)
        } else {
            None
        },
    }
}

/// The storage for VM disks when the options settle it; `None` when the
/// operator is to choose.
pub fn preset_storage_location(options: &RunOptions) -> (storage: Option<String>)
    ensures
        match storage {
            Some(s) => preset_storage(options@) == Some(s@),
            None => preset_storage(options@) is None,
        },
{
    match &options.storage {
        Some(s) => Some(s.clone()),
        None => if options.non_interactive {
            Some(string_from_chars(chars_of("local-lvm").as_slice()))
        } else {
            None
        },
    }
}

/// The storage pre-selected when the operator chooses among `storages`: the
/// first `local-lvm`, else the first one.
pub open spec fn default_storage(storages: Seq<Seq<char>>) -> int {
    if exists|i: int| 0 <= i < storages.len() && storages[i] == "local-lvm"@ {
        choose|i: int|
            0 <= i < storages.len() && storages[i] == "local-lvm"@ && forall|k: int|
                0 <= k < i ==> storages[k] != "local-lvm"@
    } else {
        0
    }
}

/// The index of the storage to pre-select among `storages`.
pub fn default_storage_index(storages: &[String]) -> (idx: usize)
    ensures
        idx == default_storage(texts(storages@)),
{
    let ghost sv = texts(storages@);
    let mut i: usize = 0;
    while i < storages.len()
        invariant
            sv == texts(storages@),
            i <= storages@.len(),
            forall|k: int| 0 <= k < i ==> sv[k] != "local-lvm"@,
        decreases storages@.len() - i,
    {
        if same_text(storages[i].as_str(), "local-lvm") {
            assert(sv[i as int] == "local-lvm"@);
            let ghost w = choose|w: int|
                0 <= w < sv.len() && sv[w] == "local-lvm"@ && forall|k: int| 0 <= k < w ==> sv[k] != "local-lvm"@;
            assert(w == i) by {
                if w < i {
                } else if w > i {
                    assert(sv[i as int] != "local-lvm"@);
                }
            }
            return i;
        }
        i = i + 1;
    }
    0
}

/// The storage names in the output of `pvesm status`: the first word of each
/// line after the header, other than `Name`.
pub open spec fn storage_names(lines: Seq<Seq<char>>) -> Seq<Seq<char>>
    decreases lines.len(),
{
    if lines.len() == 0 {
        Seq::empty()
    } else {
        let rest = storage_names(lines.drop_last());
        match first_word(lines.last()) {
            Some(w) => if w != "Name"@ {
                rest.push(w)
            } else {
                rest
            },
            None => rest,
        }
    }
}

/// The lines of `output` after the first one.
pub open spec fn after_header(output: Seq<char>) -> Seq<Seq<char>> {
    let all = lines_of(output);
    if all.len() == 0 {
        all
    } else {
        all.drop_first()
    }
}

/// The storages that `pvesm status --content images,rootdir` printed.
pub fn parse_vm_storages(output: &str) -> (names: Vec<String>)
    ensures
        texts(names@) == storage_names(after_header(output@)),
{
    let chars = chars_of(output);
    let all = lines(chars.as_slice());
    let ghost rows = after_header(output@);
    let mut names: Vec<String> = Vec::new();
    if all.len() == 0 {
        assert(texts(names@) =~= storage_names(rows));
        return names;
    }
    let name_chars = chars_of("Name");
    let mut i: usize = 1;
    while i < all.len()
        invariant
            1 <= i <= all@.len(),
            all.deep_view() == lines_of(output@),
            rows == all.deep_view().drop_first(),
            name_chars@ == "Name"@,
            texts(names@) == storage_names(rows.take(i - 1)),
        decreases all@.len() - i,
    {
        assert(rows.take(i as int).drop_last() =~= rows.take(i - 1));
        assert(rows.take(i as int).last() == all@[i as int]@);
        match first_word_chars(all[i].as_slice()) {
            Some(w) => {
                if !crate::text::same_chars(w.as_slice(), name_chars.as_slice()) {
                    let ghost before = names@;
                    names.push(string_from_chars(w.as_slice()));
                    assert(texts(names@) =~= texts(before).push(w@));
                }
            },
            None => {},
        }
        i = i + 1;
    }
    assert(rows.take(i - 1) =~= rows);
    names
}


/// How the storage for VM disks is settled once the options leave it open.
pub enum StorageChoice {
    /// This storage, without asking.
    Use(String),
    /// The operator picks among the listed storages, this one pre-selected.
    Pick { default_index: usize },
    /// No storage was listed: the operator types one, `local-lvm` by default.
    Type,
}

/// The storage that the options and the listed `storages` settle: the preset
/// one, else the only one listed; `None` when the operator is to choose.
pub open spec fn settled_storage(options: OptionsView, storages: Seq<Seq<char>>) -> Option<Seq<char>> {
    match preset_storage(options) {
        Some(s) => Some(s),
        None => if storages.len() == 1 {
            Some(storages[0])
        } else {
            None
        },
    }
}

/// How the storage for VM disks is chosen, given the options and the storages
/// that hold disk images: the preset one; the only one listed, without
/// asking; a pick among several with `local-lvm` (else the first)
/// pre-selected; or a typed name when none is listed.
pub fn storage_choice(options: &RunOptions, storages: &[String]) -> (choice: StorageChoice)
    ensures
        match choice {
            StorageChoice::Use(s) => settled_storage(options@, texts(storages@)) == Some(s@),
            StorageChoice::Pick { default_index } => {
                &&& settled_storage(options@, texts(storages@)) is None
                &&& storages@.len() > 1
                &&& default_index == default_storage(texts(storages@))
            },
            StorageChoice::Type => settled_storage(options@, texts(storages@)) is None && storages@.len()
                == 0,
        },
{
    if let Some(s) = preset_storage_location(options) {
        return StorageChoice::Use(s);
    }
    if storages.len() == 1 {
        assert(texts(storages@)[0] == storages@[0]@);
        return StorageChoice::Use(storages[0].clone());
    }
    if storages.len() == 0 {
        return StorageChoice::Type;
    }
    StorageChoice::Pick { default_index: default_storage_index(storages) }
}


/// `a` is a flag that takes the next argument as its value.
pub open spec fn takes_value(a: Seq<char>) -> bool {
    a == "--storage"@ || a == "-s"@ || a == "--templates"@ || a == "-t"@
}

/// Argument `i` is read as a flag: the first argument is, and after a flag
/// the next argument is, except after one that takes a value, whose value is
/// skipped.
pub open spec fn is_flag_position(args: Seq<Seq<char>>, i: int) -> bool
    decreases i,
{
    if i < 0 {
        false
    } else if i == 0 {
        true
    } else if i == 1 {
        !takes_value(args[0])
    } else {
        (is_flag_position(args, i - 1) && !takes_value(args[i - 1])) || (is_flag_position(args, i - 2)
            && takes_value(args[i - 2]))
    }
}

/// The flag `f` is read at some position from `i` on.
pub open spec fn flag_read_from(args: Seq<Seq<char>>, i: int, f: Seq<char>) -> bool {
    exists|j: int| i <= j < args.len() && is_flag_position(args, j) && #[trigger] args[j] == f
}

/// The value of a flag that takes one is never read as a flag.
proof fn lemma_value_is_no_flag(args: Seq<Seq<char>>, i: int)
    requires
        is_flag_position(args, i),
        takes_value(args[i]),
    ensures
        !is_flag_position(args, i + 1),
    decreases i,
{
    if i >= 1 && is_flag_position(args, i - 1) && takes_value(args[i - 1]) {
        lemma_value_is_no_flag(args, i - 1);
    }
}

/// A flag that takes no value is read from `i` on exactly when it is
/// argument `i` or is read from the next flag position on.
proof fn lemma_flag_read_step(args: Seq<Seq<char>>, i: int, f: Seq<char>)
    requires
        0 <= i < args.len(),
        is_flag_position(args, i),
        !takes_value(f),
    ensures
        flag_read_from(args, i, f) == (args[i] == f || flag_read_from(
            args,
            i + if takes_value(args[i]) {
                2int
            } else {
                1int
            },
            f,
        )),
{
    let step: int = if takes_value(args[i]) { 2 } else { 1 };
    if takes_value(args[i]) && i + 1 < args.len() {
        lemma_value_is_no_flag(args, i);
    }
    if flag_read_from(args, i, f) {
        let j = choose|j: int| i <= j < args.len() && is_flag_position(args, j) && #[trigger] args[j] == f;
        if j != i {
            assert(j >= i + step);
        }
    }
    if args[i] == f {
        assert(i <= i < args.len() && is_flag_position(args, i) && args[i] == f);
    }
    if flag_read_from(args, i + step, f) {
        let j = choose|j: int| i + step <= j < args.len() && is_flag_position(args, j) && #[trigger] args[j] == f;
        assert(i <= j);
    }
}

proof fn lemma_flags_from(args: Seq<Seq<char>>, i: int, acc: OptionsView)
    requires
        0 <= i,
        i < args.len() ==> is_flag_position(args, i),
    ensures
        options_from(args, i, acc).assume_yes == (acc.assume_yes || flag_read_from(args, i, "--yes"@)
            || flag_read_from(args, i, "-y"@)),
        options_from(args, i, acc).non_interactive == (acc.non_interactive || flag_read_from(
            args,
            i,
            "--non-interactive"@,
        )),
        options_from(args, i, acc).install_all == (acc.install_all || flag_read_from(args, i, "--all"@)),
    decreases args.len() + 1 - i,
{
    reveal_strlit("--storage");
    reveal_strlit("-s");
    reveal_strlit("--templates");
    reveal_strlit("-t");
    reveal_strlit("--all");
    reveal_strlit("--yes");
    reveal_strlit("-y");
    reveal_strlit("--non-interactive");
    if i >= args.len() {
        return;
    }
    let a = args[i];
    let step: int = if takes_value(a) { 2 } else { 1 };
    let next = if a == "--storage"@ || a == "-s"@ {
        OptionsView {
            storage: if i + 1 < args.len() {
                Some(args[i + 1])
            } else {
                None
            },
            ..acc
        }
    } else if a == "--templates"@ || a == "-t"@ {
        if i + 1 < args.len() {
            OptionsView { template_vmids: vmid_list(split_on(args[i + 1], ',')), ..acc }
        } else {
            acc
        }
    } else if a == "--all"@ {
        OptionsView { install_all: true, ..acc }
    } else if a == "--yes"@ || a == "-y"@ {
        OptionsView { assume_yes: true, ..acc }
    } else if a == "--non-interactive"@ {
        OptionsView { non_interactive: true, ..acc }
    } else {
        acc
    };
    assert(options_from(args, i, acc) == options_from(args, i + step, next));
    if i + step < args.len() {
        assert(is_flag_position(args, i + step));
    }
    lemma_flags_from(args, i + step, next);
    assert("--yes"@[2] != "-s"@[1] && "--yes"@[2] != "-t"@[1]);
    assert("--yes"@.len() != "--storage"@.len() && "--yes"@.len() != "--templates"@.len());
    assert("-y"@[1] != "-s"@[1] && "-y"@[1] != "-t"@[1]);
    assert("-y"@.len() != "--storage"@.len() && "-y"@.len() != "--templates"@.len());
    assert("--all"@[2] != "--yes"@[2]);
    assert("--non-interactive"@.len() != "--yes"@.len() && "--non-interactive"@.len() != "-y"@.len()
        && "--non-interactive"@.len() != "--all"@.len() && "--non-interactive"@.len() != "--storage"@.len()
        && "--non-interactive"@.len() != "--templates"@.len() && "--non-interactive"@.len() != "-s"@.len()
        && "--non-interactive"@.len() != "-t"@.len());
    assert("--all"@.len() != "-y"@.len() && "--all"@.len() != "-s"@.len() && "--all"@.len() != "-t"@.len()
        && "--all"@.len() != "--storage"@.len() && "--all"@.len() != "--templates"@.len());
    lemma_flag_read_step(args, i, "--yes"@);
    lemma_flag_read_step(args, i, "-y"@);
    lemma_flag_read_step(args, i, "--non-interactive"@);
    lemma_flag_read_step(args, i, "--all"@);
}

/// Law: the options `--yes`/`-y`, `--non-interactive` and `--all` each turn on
/// exactly their own setting, and only where they are read as a flag (not as
/// the value of `--storage` or `--templates`); no other argument turns them on.
pub proof fn law_boolean_flags(args: Seq<Seq<char>>)
    ensures
        options_from(args, 0, no_options()).assume_yes <==> exists|j: int|
            0 <= j < args.len() && is_flag_position(args, j) && (#[trigger] args[j] == "--yes"@ || args[j]
                == "-y"@),
        options_from(args, 0, no_options()).non_interactive <==> exists|j: int|
            0 <= j < args.len() && is_flag_position(args, j) && #[trigger] args[j] == "--non-interactive"@,
        options_from(args, 0, no_options()).install_all <==> exists|j: int|
            0 <= j < args.len() && is_flag_position(args, j) && #[trigger] args[j] == "--all"@,
{
    lemma_flags_from(args, 0, no_options());
    if flag_read_from(args, 0, "--yes"@) {
        let j = choose|j: int| 0 <= j < args.len() && is_flag_position(args, j) && #[trigger] args[j] == "--yes"@;
        assert(args[j] == "--yes"@);
    }
    if flag_read_from(args, 0, "-y"@) {
        let j = choose|j: int| 0 <= j < args.len() && is_flag_position(args, j) && #[trigger] args[j] == "-y"@;
        assert(args[j] == "-y"@);
    }
}

/// Law: an argument list without `--yes` and `-y` never turns on replacing
/// local copies without asking.
pub proof fn law_no_yes_without_flag(args: Seq<Seq<char>>)
    requires
        !args.contains("--yes"@),
        !args.contains("-y"@),
    ensures
        !options_from(args, 0, no_options()).assume_yes,
{
    law_boolean_flags(args);
    if options_from(args, 0, no_options()).assume_yes {
        let j = choose|j: int|
            0 <= j < args.len() && is_flag_position(args, j) && (#[trigger] args[j] == "--yes"@ || args[j] == "-y"@);
        assert(args.contains(args[j]));
    }
}


/// A storage line contributes its first word, unless that is `Name`.
pub open spec fn row_names(line: Seq<char>, x: Seq<char>) -> bool {
    first_word(line) == Some(x) && x != "Name"@
}

proof fn lemma_storage_names_members(ls: Seq<Seq<char>>, x: Seq<char>)
    ensures
        storage_names(ls).contains(x) <==> exists|k: int| 0 <= k < ls.len() && row_names(#[trigger] ls[k], x),
        storage_names(ls).len() <= ls.len(),
    decreases ls.len(),
{
    if ls.len() > 0 {
        let init = ls.drop_last();
        let rest = storage_names(init);
        let n = storage_names(ls);
        lemma_storage_names_members(init, x);
        let in_init = exists|k: int| 0 <= k < init.len() && row_names(#[trigger] init[k], x);
        let in_ls = exists|k: int| 0 <= k < ls.len() && row_names(#[trigger] ls[k], x);
        // The lines of `ls` are those of `init` and its last one.
        if in_init {
            let k = choose|k: int| 0 <= k < init.len() && row_names(#[trigger] init[k], x);
            assert(ls[k] == init[k]);
        }
        if in_ls {
            let k = choose|k: int| 0 <= k < ls.len() && row_names(#[trigger] ls[k], x);
            if k < ls.len() - 1 {
                assert(init[k] == ls[k]);
            }
        }
        assert(in_ls == (in_init || row_names(ls.last(), x))) by {
            if row_names(ls.last(), x) {
                assert(row_names(ls[ls.len() - 1], x));
            }
        }
        // The names of `ls` are those of `init` and, maybe, the word of its last line.
        if first_word(ls.last()) is Some && first_word(ls.last())->0 != "Name"@ {
            let w = first_word(ls.last())->0;
            assert(n == rest.push(w));
            if rest.contains(x) {
                let i = choose|i: int| 0 <= i < rest.len() && rest[i] == x;
                assert(n[i] == x);
            }
            if w == x {
                assert(n[rest.len() as int] == x);
            }
            if n.contains(x) {
                let i = choose|i: int| 0 <= i < n.len() && n[i] == x;
                if i < rest.len() {
                    assert(rest[i] == x);
                }
            }
            assert(row_names(ls.last(), x) == (w == x));
        } else {
            assert(n == rest);
            assert(!row_names(ls.last(), x));
        }
    }
}

/// Law: the storages listed are exactly the first words, other than `Name`,
/// of the lines of the output after its first (header) line, the last line
/// included; there are no more of them than such lines.
pub proof fn law_storage_rows(output: Seq<char>)
    ensures
        forall|k: int|
            1 <= k < lines_of(output).len() && first_word(#[trigger] lines_of(output)[k]) is Some && first_word(
                lines_of(output)[k],
            )->0 != "Name"@ ==> storage_names(after_header(output)).contains(first_word(lines_of(output)[k])->0),
        forall|x: Seq<char>|
            #[trigger] storage_names(after_header(output)).contains(x) ==> exists|k: int|
                1 <= k < lines_of(output).len() && row_names(#[trigger] lines_of(output)[k], x),
        storage_names(after_header(output)).len() + 1 <= lines_of(output).len() || lines_of(output).len() == 0,
{
    let ls = lines_of(output);
    let rows = after_header(output);
    assert forall|k: int|
        1 <= k < ls.len() && first_word(#[trigger] ls[k]) is Some && first_word(ls[k])->0 != "Name"@ implies storage_names(
        rows,
    ).contains(first_word(ls[k])->0) by {
        let x = first_word(ls[k])->0;
        lemma_storage_names_members(rows, x);
        assert(rows[k - 1] == ls[k]);
        assert(row_names(rows[k - 1], x));
    }
    assert forall|x: Seq<char>| #[trigger] storage_names(rows).contains(x) implies exists|k: int|
        1 <= k < ls.len() && row_names(#[trigger] ls[k], x) by {
        lemma_storage_names_members(rows, x);
        let k = choose|k: int| 0 <= k < rows.len() && row_names(#[trigger] rows[k], x);
        assert(ls[k + 1] == rows[k]);
    }
    lemma_storage_names_members(rows, Seq::empty());
}


proof fn lemma_values_kept(args: Seq<Seq<char>>, i: int, acc: OptionsView)
    requires
        0 <= i,
    ensures
        !args.contains("--storage"@) && !args.contains("-s"@) ==> options_from(args, i, acc).storage == acc.storage,
        !args.contains("--templates"@) && !args.contains("-t"@) ==> options_from(args, i, acc).template_vmids
            == acc.template_vmids,
    decreases args.len() + 1 - i,
{
    if i < args.len() {
        let a = args[i];
        assert(args.contains(a));
        if a == "--storage"@ || a == "-s"@ {
            lemma_values_kept(
                args,
                i + 2,
                OptionsView {
                    storage: if i + 1 < args.len() {
                        Some(args[i + 1])
                    } else {
                        None
                    },
                    ..acc
                },
            );
        } else if a == "--templates"@ || a == "-t"@ {
            lemma_values_kept(
                args,
                i + 2,
                if i + 1 < args.len() {
                    OptionsView { template_vmids: vmid_list(split_on(args[i + 1], ',')), ..acc }
                } else {
                    acc
                },
            );
        } else if a == "--all"@ {
            lemma_values_kept(args, i + 1, OptionsView { install_all: true, ..acc });
        } else if a == "--yes"@ || a == "-y"@ {
            lemma_values_kept(args, i + 1, OptionsView { assume_yes: true, ..acc });
        } else if a == "--non-interactive"@ {
            lemma_values_kept(args, i + 1, OptionsView { non_interactive: true, ..acc });
        } else {
            lemma_values_kept(args, i + 1, acc);
        }
    }
}

/// Law: without `--storage`/`-s` no storage is set, and without
/// `--templates`/`-t` no template VMID is listed, whatever the other
/// arguments are.
pub proof fn law_values_need_their_flag(args: Seq<Seq<char>>)
    ensures
        !args.contains("--storage"@) && !args.contains("-s"@) ==> options_from(args, 0, no_options()).storage
            is None,
        !args.contains("--templates"@) && !args.contains("-t"@) ==> options_from(
            args,
            0,
            no_options(),
        ).template_vmids.len() == 0,
{
    lemma_values_kept(args, 0, no_options());
}

} // verus!
