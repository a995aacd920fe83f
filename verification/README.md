# imgproc

The verified core of an image-processing web service, written in Verus.

- `src/` is the library, every function of it verified:
  - `auth`: the API-key / bearer-token guard in front of the service;
  - `config`: assembling the configuration from its environment variables;
  - `media`: content-type extensions, image-URL recognition, download file names;
  - `pages`: scrolling a page and picking the image URL of each `<img>` element;
  - `models`: the image-information reply;
  - `text`: character-level string helpers.
- `app/` is the actix-web server around it: HTTP handlers, the browser,
  downloads, EXIF extraction, image resizing and token decoding.
- `tests/` exercises the library on concrete values.
