# tis

A thumbnail image server: a tiny web server that shows the images in local
directories in a mobile-friendly grid, makes and caches thumbnails, and keeps
track of which images have been downloaded.

The logic is a library verified with Verus; a thin program around it talks to
the disk and the network. Paths are Unix paths.

## Layout

- `src/`: the library. Nothing in it touches the disk or the network. Where a
  request needs that, the library says which step to take next, and takes the
  outcome.
  - `text`, `order`: text, numbers in decimal, the order of names, sorting.
  - `escape`: escaping for HTML, links and JavaScript strings; the hash behind
    DOM ids.
  - `path`: file paths and canonical paths.
  - `media`: which files are images, and their media types.
  - `state`: the configuration, the download marks, and the state file.
  - `reply`, `html`: what the server answers, and the pages.
  - `browse`: what a request may see of a directory, and the page that shows it.
  - `serve`: finding, sending and marking an image.
  - `thumb`: where thumbnails are cached, when a cached one may be used, and how
    one is made.
  - `tls`: HTTPS set-up from PEM files.
- `app/`: the program: the configuration file, the routes, the disk, the
  sockets.
- `tests/`: tests of the library on concrete values, with the outside crates
  linked.

## What is proved

Each function states what it returns. Where that hangs on the disk or on what
another crate's decoder or key loader makes of a file, it states what holds for
each answer. Beyond that the library proves, among other things:

- whatever the disk answers, no request reads a directory or serves a file
  outside the configured directories;
- a name on a page opens no tag and ends no attribute value, and a link leads to
  what it was shown for;
- a listing holds every visible image and subdirectory, in order;
- a card shows the mark that its button switches, switching twice changes
  nothing, and the saved marks are the marks that are loaded;
- a cached thumbnail is used just where it is newer than its image, and
  different images are cached under different paths;
- a thumbnail keeps the shape of its image, and only a finished one is cached.

What is taken on trust of other crates stands in functions marked
`external_body`, each with a comment that says what it claims.

## Configuration

```toml
[server]
bind = "0.0.0.0:8080"
cache_dir = "/home/pi/.cache/tis"
state_file = "/home/pi/.local/share/tis/state.json"
thumb_size = 300

# Optional HTTPS:
# tls_cert = "/path/to/cert.pem"
# tls_key = "/path/to/key.pem"

[[directories]]
name = "Photos"
path = "/home/pi/photos"
```

Run it with `tis config.toml`.
