# rqs_lib

The verified core of a Quick Share (Nearby Share) client for Linux, with the
I/O around it.

- `src/` is the library, verified with Verus:
  - `advert`: the 0xFEF3 BLE service data that advertises this device as a
    receiver endpoint, with its byte layout;
  - `weave`: the weave GATT socket: connection handshake, reassembly of the
    phone's packets, framing and fragmentation of the outgoing stream;
  - `info`, `channel`, `dto`: the transfer model and the flat messages the
    desktop front end exchanges with the library;
  - `paste`: deciding whether the clipboard is shared as files or as text;
  - `manager`: medium selection, target choice and retry rounds of a BLE
    send, and when a failed transfer is reported;
  - `cmds`: renaming the device, cleaning `XDG_DATA_DIRS` for the opener;
  - `text`, `wire`: character and byte helpers.
- `app/` holds the I/O: BlueZ advertising and GATT serving, the socket and
  transfer loops, the desktop commands and the serde shapes of the messages.
- `tests/` exercises the library on concrete values.
