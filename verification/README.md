# iconnect

A bridge between a desktop computer and the phones on its local network: phones
upload files in chunks and send texts; the desktop offers texts and files, which the
phones list, follow as a stream of events, and download.

- `src/` is the library: the rules of the bridge, written in Verus and proved.
  - `text`, `decimal`, `names`, `clock`: characters and trimming, numbers, file names,
    time stamps and identifiers.
  - `records`, `reply`, `state`: what is kept, what is answered, and the life of the
    service.
  - `outbox`, `download`, `events`: what is offered to the phones and how it is handed
    out.
  - `inbox`, `upload`, `chunks`: what the phones send.
  - `reassembly`, `identity`: what holds of whole transfers: chunks that arrive in any
    order make up the file again, and identifiers keep offers apart.
  - `qr`, `desktop`: the picture of the address, the dialogs and the file manager.
- `tests/` runs the library on concrete values.
- `app/` is the program around it: the HTTP routes, the disk and the window.

Work on files and on the network is described in the library as a chain of steps: each
step is a value that takes the outcome of one operation and gives the next step or the
message of the failure.
