# isobmff

Locates and extracts the Exif data in HEIF files, with its behaviour stated as
contracts and proved by Verus.

- `is_heif` tells by the major brand whether a buffer starts like a HEIF file.
- `get_exif_attr` extracts the Exif data from a file in memory.
- `Parser` does the same for a file that is not in memory: it says what it needs
  read, takes the bytes, and ends with the data of the Exif item.

| Module | Holds |
| --- | --- |
| `endian`, `fourcc`, `cut` | big-endian integers, four-character codes, pieces of byte sequences |
| `splitter` | fields and child boxes of a box body |
| `ftyp` | the file type box, `is_heif` |
| `item`, `meta` | the Exif item in the metadata box, and where it lies |
| `reader`, `header` | requests and replies, the reader in memory, headers of top-level boxes |
| `parser` | the parser as a machine over requests and replies |
| `exif` | the Exif data of a file, `get_exif_attr` |
| `layout`, `laws` | boxes laid out in bytes, and what holds of the library as a whole |

`app/` runs the parser over any `BufRead + Seek`.
