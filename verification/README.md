# rust_tar

A `tar` program whose decisions are verified with Verus.

`src/` is the library. It reads the command line, matches names, chooses
members, builds and reads headers, finds the end of an archive and formats
listings. Every function states what it returns in its contract, and the
promises that span several functions are proof functions whose names begin with
`law_`. The library opens no file.

| module | what it holds |
| --- | --- |
| `args`, `words`, `options` | the command line, the names of its options, and the settings that it gives |
| `glob`, `exclude`, `path` | patterns, exclusions, tag files, and the parts and the order of paths |
| `transform`, `mode`, `mtime`, `calendar` | path rewriting, permission changes, dates and times |
| `header`, `member`, `archive` | header fields, the headers of new members and the records of long names, the members of an archive and their end |
| `create`, `extract`, `listing`, `compression`, `run` | what is added, what is listed or extracted, how it is shown, and how a run goes |
| `text`, `bytes`, `number` | characters, bytes and numbers |

Header fields are written and read by the `tar` crate and dates are matched by
the `regex` crate. What the library relies on of these crates, and of the parts
of the standard library that Verus does not know, is stated on the functions
marked `external_body`.

`app/` is the program around the library: files, streams, compression and the
walk through directories. `tests/` runs the library, together with the `tar`
crate where archives are concerned.
