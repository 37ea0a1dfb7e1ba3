# template_downloader

Planning logic of a Proxmox tool that downloads official cloud images and
turns them into cloud-init VM templates, written in Verus with its
contracts proved.

## Layout

- `src/` — the verified library.
  - `vmid.rs`: VMID series (a base VMID and its per-node offsets `+100`, `+200`, …
    within its thousand band), and what the cluster's resource list, as `pvesh`
    prints it in JSON (read with `serde_json`), says of a VMID.
  - `prepare.rs`: `TemplatePreparation`, which assigns each selected template
    a VMID (its base VMID when that is free in the cluster, else replace a local
    copy, else take the next VMID free in the cluster),
    asking its driver one question at a time; with the laws that every state
    keeps (distinct VMIDs, each in its template's series) and that every run ends.
  - `catalog.rs`: templates, groups, the selection and VM names.
  - `options.rs`: command-line options and the choice of storage (the only
    listed pool is taken without asking).
  - `downloader.rs`: finding the newest dated image in a directory listing
    (with the `regex` crate), download retries and file names.
  - `installer.rs`: the `qm` commands of an installation, in order, with
    clean-up on failure; a batch that goes on after a failure, and its tally.
  - `text.rs`: character-level text functions (trim, lines, split, parsing and
    printing integers) with exact specifications.
- `tests/` — tests of the library on concrete values.
- `app/` — the command-line program around the library: prompts, HTTP,
  files, `qm`/`pvesh`/`pvesm`/`hostname`, the catalog's JSON.
