# Jobfather

A Kubernetes job controller: jobs are specified as templates, made from them on a
schedule or on demand, and archived with their logs, events and output once they have
ended.

The logic is a library, `src/`, written in [Verus](https://github.com/verus-lang/verus):
its functions are proved to meet the contracts that stand above their bodies. What comes
from another crate stands behind small functions marked `#[verifier::external_body]`, whose
contracts are believed without proof; a comment above each says what is claimed of the call.
The server around the library, `app/`, talks to the cluster, the database and the browser.

## The library

| Module | What it holds |
|--------|---------------|
| `kubernetes::job_create`, `kubernetes::pod_spec` | making a job from a template |
| `kubernetes::scheduler` | schedules, and when they are due |
| `kubernetes::reconciler` | what is done with a job that has ended |
| `kubernetes::job`, `job_template`, `job_output`, `events` | the resources of the cluster |
| `db` | archived jobs, uploaded files and baselines of snapshots |
| `snapshot` | unpacking snapshots and comparing them |
| `metrics` | the values behind the gauges |
| `web` | the API, the tools, and what the pages show |
| `time`, `calendar` | moments, and the texts that job names end in |
| `text`, `decimal`, `order`, `json`, `sorted_map`, `dup` | what the others are written with |

Values are modelled by their `DeepView`: a struct `X` by `XView`, a string by its
characters, a map by a `Map`. Contracts are stated over these models. Properties that
relate several functions are the public proof functions whose names begin with `law_`.

## The server

`app/` reads three environment variables: `PORT` (8080), `DATABASE_PATH` (`db.db`) and
`JOBFATHER_URL`, the address under which jobs reach the server; without it no output is
uploaded. The scripts and the style sheet of the pages are read from the directory `res`.
