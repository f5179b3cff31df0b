# LAN Terminal Chat

A chat for the terminal, between the users of one local network. Users find each
other by UDP announcements; messages and files go over TCP, sealed with
XChaCha20-Poly1305 under a key that two users agree on by X25519.

`src/` is the library, verified with Verus: keys and payloads, packets and their
framing, the table of peers, the file picker, transfers, the state of the chat,
and what the screen shows. Each public function states what it returns or
changes, except where that is up to the clock (`now`) or to chance
(`random_secret`), and the proof functions whose names start with `law_` state
what holds of several functions together. `app/` is the program around it:
sockets, files, the terminal. The library knows paths as Unix systems have them;
on other systems `app/` converts. `tests/` runs the library on concrete values.

In the chat, Enter sends the message to the user under the cursor, `/files` opens
the file picker, and received files are stored in
`~/Downloads/LAN-Terminal-Chat/` under a name that is free there: a second
`file.pdf` becomes `file (1).pdf`.

Public keys come from the announcements and are not authenticated: whoever can
forge announcements can stand between two users.
