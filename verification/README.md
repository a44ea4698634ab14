# loserar

The verified core of a small zip archive manager with a graphical front end.

- `src/` is the library, verified with Verus:
  - `progress` — the states a background job reports, the 4 MiB progress
    reporting rule, and the bookkeeping of a running compression or
    extraction (`JobTracker`);
  - `compression` — the plan of a compression (items, archive names, total
    size), the step taken for each item, and the zip entry options;
  - `extraction` — the total size of an archive's entries and the step taken
    for each entry;
  - `browser` — directory listings (parent link first, directories before
    files, case-insensitive names, stable) and the drive roots;
  - `ordering` — the stable sort behind listings and the order of texts;
  - `paths` — paths read component by component in the Unix or the Windows
    style: equality, parent, file name, stem and extension, and the names
    that entries get inside an archive;
  - `ui` — the window state and its answers to clicks, drops and buttons;
  - `text` — decimal rendering, separator normalisation and text tests;
  - `archive` — the description of an archive entry.
- `app/` is the program around it: the egui window, the threads that run
  jobs, and the file-system and archive I/O.
- `tests/` runs the library on concrete values.
