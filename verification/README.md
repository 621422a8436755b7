# kukuryku

Text-to-speech with Kokoro-82M: what is spoken, in which pieces, and how a warm daemon, its
client and the audio sink take turns. The library is written in Verus; every function states
what it does, and the laws that hold across functions are proved next to them.

| Where | What |
|---|---|
| `src/text.rs`, `src/number.rs` | characters, words, lines, decimal numbers |
| `src/markdown/` | stripping markdown syntax so that it isn't read aloud |
| `src/kokoro/` | sentences, phonemes, tokens, assets, the sink and its playback, WAV files |
| `src/serve/` | the wire protocol, the accept loop, timeouts, the socket, the voice cache |
| `src/cli.rs` | what the command line asks for |
| `app/` | the program around it: processes, sockets, files, the model and its floats |
| `tests/` | examples of everything above |

Modules named `*_laws` hold what is promised of a whole module: that no word is lost when text
is cut into sentences, that a request arrives as it was sent, that a held sink stays open, that
an idle daemon shuts down and a busy one never does.

Not proved, but relied on: `char::is_alphanumeric`, `String::push`, `String::from_utf8_lossy`,
`PathBuf::clone` and `serde_json::from_str`. Each is declared where it is used, with what is
claimed of it.
