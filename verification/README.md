# samloader

Firmware for Samsung devices, in two parts:

- `fus`: downloading firmware from the update server. A download runs over several
  connections, is decrypted in place, and can be interrupted at any moment: a footer
  behind the payload says which blocks are complete.
- `odin`: sending firmware to a device in download mode. Commands and their packets, the
  session, the transfer of files in slices and chunks, and the inspection of `super`
  images, raw, sparse or compressed with LZ4.

`src/` is a Verus library. Every function states what it returns or changes, and the
proofs are checked by Verus. Some results that span functions stand as public proof
functions: that an interrupted download can always be resumed
(`fus::tracker::interrupted_download_can_resume`), that sharing out ranges loses no byte
(`fus::cover::partition_keeps_bytes`), that a finished download is the decrypted file
(`fus::download::finished_download_is_decrypted`), what the run of a worker leaves behind
(`fus::pool::lone_worker_run`), that no two commands have the same packet
(`odin::packets::packets_differ`), that compression does not change what is read from an
image (`odin::lp::compressed_is_inspected_like_contents`), that what a device says decides what an operation
comes to (`odin::replay`), that all of a file is counted as progress
(`odin::replay::progress::file_progress`).

What a device says is recorded in a transcript (`odin::transcript`). The contract of a
session operation relates the transcript before it, the transcript after it, and its
result.

A few calls go to other crates and are believed, not proved: MD5 (`fus::footer`), AES-128
(`fus::cipher`), LZ4 frames (`odin::lz4`), and the reading of text that may not be UTF-8
(`odin::connection`). Each stands behind one small function that says what is claimed.

`app/` holds the files, threads and connections around the download, and the messages
around a session with a device.
