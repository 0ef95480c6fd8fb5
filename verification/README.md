# ofac_sanctioned_addresses

Builds lists of the digital currency addresses sanctioned by OFAC from the
SDN advanced XML file, and fetches that file from OFAC's publication service.

The library in `src/` is verified with Verus:

- `asset`: the assets and output formats and their names.
- `cli`: the command line, its usage texts and error messages.
- `xml`: the XML document as a list of nodes (parsed by `roxmltree`).
- `addresses`: finding an asset's feature type, collecting its addresses and
  planning the files of a run.
- `lists`: dropping repeats and sorting, with their laws.
- `output`: the text and JSON list files (JSON laid out by `serde_json`).
- `archive`: picking the XML file out of the downloaded ZIP archive (`zip`).
- `download`: recognising TLS certificate failures and deciding on a retry.
- `text`: character-level helpers (trimming, orders, searching).

`app/main.rs` is the `generate-address-list` program: it reads arguments,
reads and writes files and downloads the archive with `reqwest`.
