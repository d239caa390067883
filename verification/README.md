# works-server

A desk server for a company or for one person: accounts, sandboxes (directories of the
machine that users are let into), grants, desk files, and terminals. Everything that it
decides stands in a library verified with [Verus](https://github.com/verus-lang/verus).
The program around the library does what touches the world.

## Layout

`src/` is the verified library. It works on plain values only.

| module | what it holds |
| --- | --- |
| `tables` | the rows, the changes that can be made to them, and the rules that every change keeps |
| `db` | the tables in memory; every change is recorded, to be carried out on the stored tables |
| `order` | order of texts, and a stable sort |
| `api` | the state of the server, who a request comes from, what users may do in a sandbox |
| `accounts` | first account, sessions, profile, accounts |
| `sandboxes` | sandboxes and grants |
| `files`, `fsops`, `paths` | desk files: who may use them, which path is meant, what a listing shows |
| `term`, `pty` | terminals: who may open one, what it runs, how client and shell are connected |
| `ui` | passing the user interface on from where it is hosted |
| `config` | what the server is started with |
| `secrets` | passwords, identifiers, tokens |
| `text`, `reply` | texts, refusals |
| `laws` | what holds of requests that follow each other, and what no request can bring about |

`app/` is the program: arguments, HTTP routes, the SQLite file, the file system, pseudo
terminals. A request runs through the library in steps. Where a step needs to know
something of the file system, or needs a directory to be made, the program does that in
between and hands the outcome to the next step.

Whether the path of a sandbox is absolute is decided by the rules of the machine, Unix or
Windows. Otherwise the library sees paths with slashes between their steps; on Windows the
program hands them over in that form.

`tests/` runs the library.

## Contracts

A handler that changes something states its whole outcome: the changes to the tables, and
the answer with its status and message. A handler that draws an identifier, a token or a
salt comes in two forms. The one whose name ends in `_with` takes what was drawn as an
argument and has an exact contract. The other one draws it and promises that outcome for
some value of the right form.

What the library takes on trust of other crates (Argon2, base64, hex, random numbers, the
clock, JSON) stands in small functions marked `external_body`, each with a comment that
says what is claimed.

## Run

```bash
# Personal desk on this machine: open http://127.0.0.1:8787
works-server --personal --bind 127.0.0.1:8787

# Company install: bind on the LAN or a public interface, data on disk you control
works-server --bind 0.0.0.0:8787 --data /var/lib/works --name "Acme"
```

On the first visit `GET /.well-known/works.json` says `setup_required: true`, and
`POST /v1/setup` creates the first administrator. Administrators create users, attach
sandboxes to directories, list them, and grant users leave to read, to write and to use a
shell. Members find the sandboxes that they can see in `GET /v1/me`.
`--api-only` switches the user interface off; `WORKS_CORS` takes further web origins.
