# mwb_bridge

A bridge that lets the keyboard and the mouse of a Windows PC, through the
*Mouse Without Borders* module of PowerToys, control a Linux or macOS machine,
and that keeps the clipboards of the two in step.

`src/` is the library. It is written in Verus: every function states what it
does, and the statements are proved. It does no input or output of its own.
`app/` is the program around it: sockets, files, processes, the clipboard and
the input devices of the machine.

## What is where

| Module | What it holds |
|---|---|
| `crypto` | the key, the magic number, AES-256 in cipher block chaining |
| `link` | one end of an encrypted connection |
| `mwb_protocol` | packages: layout, seal, handshake |
| `clipboard` | small payloads cut into packages, and the text in them |
| `session`, `conversation` | a connection to or from the message server |
| `file_header`, `transfer` | a connection to or from the clipboard server |
| `sharing`, `picture` | what connections and clipboard watcher share |
| `input_handling`, `vk_keycode` | mouse and keyboard packages, the lock combination |
| `keycode_macos`, `cg_events`, `icon` | what macOS needs |
| `config`, `paths`, `text`, `decimal` | files, URIs, text and numbers |
| `probe` | the diagnostic tools |

## What is proved

- What one end seals and sends, the other takes for genuine, and it is what was
  sent; a package under another magic number, or with a wrong byte under its
  seal, is refused and changes nothing.
- The handshake completes between two ends with the same key.
- A text that is copied arrives as that text, unless it holds the separator of
  the wire format. An image that is pushed arrives as its PNG file, followed by
  at most 48 zero bytes.
- A file that is served is the file that is pulled, as long as its name fits the
  header and it is neither empty nor over 100 MiB, which is refused.
- What came from the peer is never sent back to it.
- A key that is held is pressed once, a release always goes through, and Num
  Lock stays where it is.
- The lock combination fires once for each burst.

What is believed without proof stands in the library as wrappers and
specifications of functions of other crates: AES, SHA-512, PBKDF2, DEFLATE, PNG,
hexadecimal digits, random numbers, the clock, and a few functions of the
standard library. Each says in its comment what it claims.
