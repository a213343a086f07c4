# giflibrary

A GIF and image library server with tag search, NSFW categories that viewers opt into,
suggestions from visitors that an administrator approves, and rate limits on uploads.

The decisions the server makes are a Verus-verified library under `src/`:

- `text`: character classes, trimming, splitting and truncating strings.
- `tags`: NSFW categories of a GIF, the categories a viewer enabled, locking, the
  placeholder label, caption tags.
- `search`: Levenshtein distance and which GIFs a search query keeps.
- `slug`: slugs of GIF pages and how a requested slug finds its GIF.
- `placeholder`: the key hash, colours and `data:` URL of a locked GIF's placeholder.
- `gallery`: how one GIF appears in a listing.
- `limits`: sliding-window rate limits, with the proof that no window ever accepts more
  than its limit.
- `submit`: administrator check, client address, the limits applied to uploads,
  suggestions and troll reports, and the fields read from forms.
- `media`: accepted content types, the WebP conversion plan, file names, stored files.
- `listing`: stable newest-first ordering, paging, walking the storage listing, capping logs.
- `page`: answering a GIF page request, HTML escaping and filling the page template.
- `store`: the tag table and the suggestion queue, and approving or rejecting suggestions.

`app/` is the HTTP server around it: routes, S3 storage, JSON files, clocks, randomness,
the `ffmpeg` process, and the floating-point layout of placeholder SVGs.
