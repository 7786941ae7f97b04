# tag_editor_core

The verified core of a desktop tool for tagging training images: each image
`name.ext` has a tag file `name.txt` holding comma-separated tags.

- `src/` is the library, verified with Verus. `src/logic/` holds the rules
  that need no file system (tag lists, file names, numbering, path
  conversion, sorting decisions, tag-definition parsing, name order);
  `src/services/` turns folder listings and file contents into listings,
  reports and the next step of multi-step operations (bulk tag edits, moving
  image/tag-file pairs, batch inference, model downloads).
- `app/` is the unverified side: it reads folders and files, carries out the
  steps the library decides, runs the ONNX model (confidences are floating
  point) and fetches models from the Hugging Face Hub.
- `tests/` exercises the library from outside.
