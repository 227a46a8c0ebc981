# reddit-cli

`rdt` is a strictly read-only Reddit client for the command line. It finds and
reads posts, threads and comments, captures the activity of subreddits into a
local SQLite database, and sums it up. It never posts, votes or changes anything
on Reddit.

The logic of the client is a library whose behaviour is stated in contracts and
proved with [Verus](https://github.com/verus-lang/verus). The program around it
makes the requests, reads and writes files, and talks to the database.

## Layout

`src/` is the verified library.

| module | what it holds |
| --- | --- |
| `text`, `number` | searching, splitting and joining text; integers in decimal notation |
| `json`, `parse` | JSON documents as plain values; listings and threads in them |
| `atom` | Atom and RSS feeds |
| `model`, `error` | items, pages and threads; failures and their wording |
| `web`, `address` | web addresses and queries; names, targets, paths and URLs on Reddit |
| `transport`, `cache` | requests, headers, pacing, retries; kept answers |
| `listing`, `thread` | the requests behind listings and threads, and what follows each answer |
| `order`, `resolve` | the reading order of comments; gathering a thread from several answers |
| `store`, `sync`, `backfill` | merging sightings; capturing streams, feeds and whole threads |
| `rank`, `digest`, `render` | picking the best; digests; everything that is printed |
| `config`, `cli`, `actions`, `plan` | settings, commands, targets, and what each command does |

Work that takes turns between the network or the database and decisions is a
state machine: a step says what to do next, and the program hands back what came
of it. `thread::ThreadFetch`, `sync::StreamSync` and `backfill::BackfillScan` are
of this kind.

Numbers with a fraction are carried as bit patterns (`json::Real`) and never
computed with.

`app/` is the program: command line, HTTP, files and database. `tests/` runs the
library on concrete values, together with the crates that it calls.

## What is proved

Every public function states what it returns for every input. Beyond that, the
functions named `law_…` state what holds across functions, among them:

- requests for names, ids, permalinks and paths go to `https://www.reddit.com/`
  and to no other host, a target of nothing but slashes aside;
- a thread takes no more requests than it may, and hidden comments that were not
  fetched are always reported;
- in a thread every comment stands once, together with what is below it, replies
  to one parent keep their order, and no comment that leads to the post is lost;
- captures stay within their page and item caps, and report a gap where they
  stop short;
- a later sighting in a feed never erases or downgrades what was read as JSON;
- kept answers are never mixed up between readers, forms and URLs, and expire;
- digests are bounded and in order.

## What is trusted

The library calls `serde_json`, `toml`, `quick-xml`, `url`, `urlencoding`,
`sha2`, `owo-colors` and a little of the standard library through small functions
whose contracts are assumed. Each carries a comment that says what is claimed of the call.
