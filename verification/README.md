# oxideav-hls

HLS VOD packet source for the OxideAV framework. What a playlist offers, which
rendition is played, how its segments are found and read, and in what order their
packets are delivered is decided by the library in `src/`, whose behaviour is
stated in contracts and proved by Verus. `app/` connects it to HTTP, to the
container demuxers and to OxideAV's registry.

## Modules

| module | what it holds |
| --- | --- |
| `address` | URLs: `hls+http(s)` URIs, references, HTTP and HTTPS only |
| `playlist` | master and media playlists as they are read |
| `select` | the fixed rendition of a master playlist, and its height ceiling |
| `discovery` | variants and audio renditions, without opening any |
| `opening` | from a playlist URL to the media playlist that is played |
| `media` | what is refused, the segment index, media-time lookup |
| `segment` | format detection, and the view of a map followed by a segment |
| `maps` | the cache of initialization maps |
| `packed_audio` | ID3-timestamped ADTS AAC: tags, frames, clock, demuxer, laws |
| `streams` | stream layout, transport origin, the stream that a seek goes by |
| `source` | priming, segment progression, readahead, seeks |
| `delivery` | what a source delivers as a whole: laws on next packets and seeks |
| `bytes`, `text`, `seconds`, `fault` | helpers and errors |

Proof functions named `law_*` state what holds across functions: that delivery is
continuous over segment boundaries, that a seek lands at or before its target,
that the preferred variant of a discovery is the one that opening plays, and so
on.

## Times

A time in seconds is carried as the bit pattern of a double (`seconds`), a
duration as that of a single. The library compares patterns; sums and
differences of times are computed in `app/`.

## Settings

`OXIDEAV_HLS_MAX_HEIGHT` sets the height ceiling of the rendition that is played,
720 without it. Where no rendition is known to keep to it, the one of the lowest
bandwidth is played.
