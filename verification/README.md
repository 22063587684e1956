# simp

The verified core of a small web file browser. The library (`src/`) decides
what the request handlers show and store; `app/` is the web server around it
(routing, database, templates, image encoding, file system).

- `paths`: the components, file name and extension of a path, under the
  rules of the platform's separator (`/`: Unix; `\`: Windows, with its
  drive, share, device and verbatim prefixes).
- `utils`: breadcrumbs (their directory flags are answers that `app/` asks
  of the file system), the MIME type and previewability of an extension,
  and where a file's thumbnail is cached (an MD5 digest of its path).
- `routes`: the decisions of the handlers: the file record for a path, the
  queries sent to the database, the tag set after an edit, the content type
  of a media response, the thumbnails looked up for a folder.
- `types`: the records (files, tags, folders, breadcrumbs, settings) and the
  error type.
- `text`: joining texts and moving between `&str`, `String` and `Vec<char>`.
