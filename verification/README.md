# imgserver

A photo album web server. Albums are directories named `album_*`, each with a
`config.cfg` (name, author, host path, cover, readme, image directory). The
server keeps thumbnails and previews of each album's images in `.thumbs` and
`.previews`, with a `.lock` file recording the MD5 hash of every cached image,
and serves album pages, photo listings, images and static files.

## Layout

- `src/` — the library, verified with Verus:
  - `text.rs`: searching, splitting, replacing and line handling over `Seq<char>`;
  - `markdown.rs`: the small Markdown renderer;
  - `photos.rs`: the photo ordering (by number for `<NAME><NUM>.<EXT>` names) and a stable sort;
  - `album.rs`: album settings, image kinds, lock files and cache updates, with the
    laws that a lock file reads back as written and that a freshly written cache
    needs no updates;
  - `collections.rs`, `digest.rs`, `config.rs`: the `hashbrown`, `md5`/`base16ct`
    and `simple_config_parser` calls, each behind a stated contract;
  - `routes.rs`, `serve_static.rs`: request routing, file names, content types,
    listings and the request log line;
  - `page.rs`: the HTML pages, filled from templates with `{{KEY}}` placeholders,
    the readme rendered by the `markdown` crate;
  - `cache.rs`, `image.rs`: the keyed cache and image-layout helpers.
- `app/` — the program: reading the disk, scaling images, and the HTTP server.
- `tests/` — tests of the library on concrete values.
