# ytmusic_dl

A portable downloader that turns YouTube videos into MP3 files. Firefox is opened through
geckodriver, a download button is put next to the title of a video, and pressing it closes
the browser and runs yt-dlp with a progress bar. The helper programs (geckodriver, yt-dlp,
ffmpeg and deno) are kept up to date on the way.

The decisions are in a library that is verified with Verus; the program around it does the
outside work and asks the library what comes next.

## Layout

- `src/`: the verified library
  - `text`, `number`, `order`: strings as sequences of characters, decimal notation, the
    lexicographic order
  - `semver`, `version`: semantic and other version strings, how they are read and compared
  - `release`, `cache`, `clock`, `update`: the course of an update, as a state machine
  - `archive`: picking files out of zip archives
  - `browser`, `video`: watching the browser, as a state machine; video ids
  - `double`, `percent`, `download`: reading progress lines, arguments, the result
  - `screen`: texts for the terminal
- `tests/`: tests of the library
- `app/`: the program

## What is proved

Every function of the library states in its `ensures` what it returns. Laws that relate
several functions are public proof functions at the end of each module: that success is
remembered and followed by rest, that nothing but the wanted files leaves an archive, that the
video that was chosen is the one that is downloaded, that versions are ordered as semantic
versioning has it, and others.

What is not proved is marked by `external_body` and `assume_specification`: calls into the
`zip` crate and a few functions of the standard library, each with a comment on what is
believed of it.
