# backup_system

A backup service in two parts.

- `src/` is the library, verified with Verus: path arithmetic with the Unix
  component rules (`paths`), where a backup writes and a restore reads
  (`layout`), cutting an archive into parts and joining them (`chunks`), the
  record of a backup, the split plan and the password check (`record`), key
  derivation and sealing with OpenSSL (`crypto`), the folder listing records
  (`models`) and the service's replies (`service`).
- `app/` is the program around it: the HTTP endpoints (`/backup/create`,
  `/backup/restore`), the file system work (tar and zip archives, reading and
  writing parts, parallel sealing), the JSON form of the record, and the
  folder listing tool.

A backup of `input_folder` into `output_folder` writes
`output_folder/name/name.tar`, cuts it into `name.tar_part1`, `name.tar_part2`,
... of 50 MB, seals each part into `*.enc` under a key derived from the
password, and keeps a record in `info/name.json`. A restore checks the
password against the record, opens the parts, joins them in recorded order,
deletes the opened parts (the sealed ones stay), unpacks the archive into
`output_folder/name` and deletes the archive.
