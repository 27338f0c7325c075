# Media Forge

A Linux command-line tool for batch-converting still images to AVIF or WebP,
measuring image quality with SSIMULACRA2, and building CBZ archives.

The crate is split in two:

- `src/` is the library, written in Verus. It holds every decision the tool
  makes, each with a contract that Verus proves: which files a scan keeps,
  how each file is handled (converted, copied as is, or left alone) and where
  its output goes, how conversion work is grouped, which folders become CBZ
  archives and in which order their pages go, when a source folder may be
  removed, what a quality report compares, and the FFmpeg command lines of
  the video tools. File system trees, archive listings and probe results
  reach it as plain values (`FsNode`, `WalkEntry`, `ProbeInfo`, ...).
- `app/` is the program around it: argument parsing, reading the file
  system into those values, the codecs (`image`, `ravif`), the SSIMULACRA2
  metric, ZIP reading and writing, the worker threads and progress bars.

Handling of files during conversion:

| Input | Handling |
| --- | --- |
| JPEG, PNG, TIFF, BMP | converted to the target format |
| AVIF, WebP, APNG | copied without re-encoding |
| animated GIF or PNG (detected from the bytes) | copied without re-encoding |
| still GIF, video, anything else | left alone |
| ZIP/CBZ entries | handled by the same rules, under a folder named after the archive |
