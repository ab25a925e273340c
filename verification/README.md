# kwd

`kwd` wraps kaniko: it reads `KANIKO_BIN`, `KANIKO_IMAGE_REPOSITORY`,
`KANIKO_IMAGE_NAME` and `KANIKO_IMAGE_TAGS` from the environment and replaces
itself with kaniko, passing on its own arguments and adding one
`--destination=IMAGE:TAG` argument per tag. The same binary, run under the
name `copier`, copies one file to a destination without following symbolic
links and keeps the file's permissions and times.

## Layout

- `src/` is the verified library (Verus):
  - `text.rs`: white space and slash stripping (`trim` and friends);
  - `order.rs`: the code-point order of strings;
  - `tagset.rs`: `TagSet`, tags kept sorted and unique;
  - `tags.rs`: the shape of a valid tag, and `parse_tags`;
  - `image.rs`: `build_image`;
  - `config.rs`: `build_config` and `destination_args`;
  - `paths.rs`: path normalization with `path_clean`;
  - `checks.rs`: the copier's checks of source and destination;
  - `walk.rs`: the component-by-component open that never follows links.
- `app/` holds the two programs' I/O: the environment, `exec`, and the file
  system calls of the copier.
- `tests/` exercises the library.
