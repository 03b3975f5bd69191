# dvrreview

Finds duplicate recordings in the collection of a digital video recorder, lets them be reviewed in a
browser, and transcodes what is kept.

The library in `src/` holds what the program decides and computes, with contracts that Verus proves:

- `scanner` reads what a probe says of a recording and what its name claims, and makes fingerprints
  of its frames;
- `cluster` compares fingerprints and joins similar recordings to clusters;
- `analysis` aligns timelines of fingerprints, finds segments and known patterns in them;
- `tmdb` looks for titles in a movie database, at a limited rate and with a memory;
- `transcode` plans a transcoding and puts its result in the place of the original without loss;
- `commands` holds the decisions of the commands of the program, and `web` those of the review;
- `db` holds the rows of the database and the history of its tables.

Similarities are floating point numbers. The library compares them by their bits (`score`) and counts
the bits in which hashes differ; the quotients and means are computed in `app/`, which also runs the
tools, asks the database and serves the pages.

Calls into other crates stand behind small functions whose contracts are not proved. Each of them
says what it claims of the call.
