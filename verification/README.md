# zxdisk

Reading and writing ZX Spectrum TR-DOS (`.trd`) and Sinclair (`.scl`) disk
images and `.hobeta` files, decoding ZX screen dumps, and the logic of the
tools around them, verified with Verus.

* `src/` - the library. Every function carries a contract proved by Verus:
  - `trd`, `scl`, `hobeta`, `image`, `entry` - the image formats and their
    catalog entries; `trd_laws` and `scl_laws` prove what the operations keep
    (free-space accounting over any sequence of edits, read-back after add,
    recoverable deletes, renames, re-opening saved images, the SCL round trip);
  - `screen`, `screen_laws` - the screen decoder and renderer, with the exact
    colour of every output byte, and what zoom, inversion and FLASH do to it;
  - `viewer` - the screen lister's view model and key maps;
  - `plugin` - the archive plugin: listing, unique names, extraction bytes,
    packing and deleting decisions;
  - `cli` - the command line tool's decisions and answers;
  - `settings`, `settings_laws` - the shared settings text, read and written in
    place, and the law that a setting written reads back;
  - `text`, `bytes`, `paths` - shared vocabulary.
* `app/` - the programs: the `zxdisk` command line tool (`main.rs`), the WCX
  packer plugin and the WLX lister plugin's native shells (Windows and Linux).
  They read and write files and settings and talk to the host; every decision
  is the library's.
* `tests/` - the test suite.
