# fractal

The core of a Matrix messaging client, verified with Verus, and a small
command-line client around it.

- `src/` is the library. Each module states its functions' behaviour in
  `requires`/`ensures` over mathematical views (`Seq`, `Option`, spec
  functions), and Verus proves the code against them. Calls into other crates
  (chrono, comrak, html2pango, md5, rand, regex, ruma-identifiers,
  unicode-segmentation, url) and a few std functions go through small
  trusted wrappers whose contracts say what those crates document.
  - `json`, `text`, `seqs`: the JSON values the library reads, string and
    sequence helpers.
  - `api`, `message`, `rooms`, `sync`, `requests`: reading the server's
    answers (rooms, messages, members, sync updates, pages of history) and
    building the URLs of the requests.
  - `appop`, `history`, `outbox`, `notify`, `room_history`: the application
    state: rooms and members, what the user has read, the queue of messages
    to send, notifications, the rows of the history.
  - `sidebar`, `directory`, `viewer`, `widgets`, `account`, `avatar`,
    `markup`, `login`, `backend`, `order`, `members`, `types`: the room list,
    the room directory, the media viewer, the account settings, avatars,
    markup, the login forms, error handling, and the order of messages.
- `tests/` runs the library on concrete values.
- `app/` is the command-line client: it logs in, follows the syncs, and sends
  messages and files, doing the network and file work the library leaves out.

## Limits

- The rooms a sync creates or changes (joined, left, invited to) are read by
  `rooms::get_rooms_from_json` on the first sync. A later sync
  (`sync::sync_update`) reports messages, unread counts, typing members and
  the other timeline changes of the joined rooms, but no new or changed
  rooms: turning a later sync's answer into rooms is left out of the
  library, which states nothing of it.
- Turning the server's answer to a directory search into rooms is left out
  too; the library orders and keeps the rooms it is given
  (`AppModel::append_directory_rooms`), and the command-line client does not
  search the directory.
