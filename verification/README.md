# verset

Changeset management for packages of any language: record changes as
changeset files, see what they do to each package's version, apply them to
the version files, write a changelog entry, run the configured commands, and
publish the packages.

## Layout

- `src/` is the library, written and proved with Verus:
  - `lib.rs`: change kinds, package types, changesets and packages;
  - `semver_value.rs`: semantic versions and how changes bump them;
  - `changeset.rs`: planning a changeset from options, changeset files and
    their names, the status report and the version updates of `apply`;
  - `changelog.rs`: the changelog entry and where it goes;
  - `detect.rs`: reading packages and versions out of manifests;
  - `document.rs`: TOML and JSON documents as the library reads and edits
    them;
  - `version.rs`: writing a new version into a version file;
  - `publish.rs`, `package.rs`, `interactive.rs`, `config.rs`,
    `timestamp.rs`, `text.rs`: publishing commands, listing, the choices of
    the interactive mode, the configuration, dates, and text operations.
- `app/` is the `verset` command: argument parsing, the file system, the
  prompts, and the serde forms of the configuration and of a changeset's
  front matter.
- `tests/` runs the library on concrete inputs.
