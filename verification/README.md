# Glint

The logic of a fast image viewer for Windows, as a Verus library: what each function does is stated in its
contract and proved.

`src/` is the library. Its modules, from the bottom up:

| Module | What it holds |
|---|---|
| `text`, `bytes`, `list`, `md5`, `path` | Characters, numbers, UTF-16, little-endian bytes; whether a list holds a value; MD5 and base64; paths as Windows reads them |
| `geom`, `config` | Rectangles and the window's place; the settings file, read and stored |
| `files`, `assoc`, `install` | Images of a folder; the registry changes; the installed copy |
| `com`, `com_server` | Results and identifiers of COM; the object behind Explorer's "open" |
| `clipboard`, `thumbcache` | The image on the clipboard; Explorer's thumbnail cache |
| `wic`, `turn`, `loader` | Pixels of a decode; how a photo lies on the screen; the plan of the decoding threads |
| `nav`, `cache`, `textures` | The folder being browsed; the pixels in memory; the photos on the GPU |
| `gpu`, `upload` | The choice of a device, the swapchain; textures, staging and mip chains |
| `win`, `ui`, `input` | What window messages mean; what is drawn and where; what the user asks for |
| `app`, `session`, `frame` | The viewer: files and pixels; showing, hiding and setting up; one frame |
| `launch` | What a command line asks for |

Laws that relate several functions are public proof functions named `law_..`.

What cannot be verified is kept at the edge. `app/` is the program: Win32, Vulkan, the system's codecs and
text renderer, and the zoom and the pan, which take floating point. It hands the library plain values and
carries out what comes back. `tests/` runs the library on concrete values.
