# sniff

Converts FL Studio projects (`.flp`) and scores (`.fsc`) to chart files for Friday
Night Funkin', and charts back to scores. The converter is a verified library; the
program around it reads and writes files, does the floating-point arithmetic, and
shows a window or follows the command line.

## The library (`src/`)

| Module | What it holds |
| --- | --- |
| `bytes`, `flp` | numbers, events, chunks, note records and text in FL Studio files |
| `project`, `inspect` | patterns, tempo and notes of a file; difficulties; marker counts |
| `grouping`, `chart` | sections, markers, tempos, lanes, the written form of notes |
| `sort`, `arrangement` | stable order by keys; sorted sections spread over files |
| `output`, `report`, `messages` | files and their names, totals, warnings, wording |
| `pipeline`, `conversion`, `course` | from inputs to charts in each mode, step by step and over whole runs |
| `fsc_export` | from a chart to a score |
| `cli`, `session` | what arguments ask for; the state behind the window |
| `number`, `text`, `types` | numbers held as bit patterns, text, shared types |

Floating-point numbers are carried as bit patterns (`number::Real`). The library
chooses between them and checks them; it does not compute with them.

Progress is reported by appending to a list, which the program then replays.

## What is proved

Every function states what it returns. Laws that relate several functions are
public proof functions, among them:

- a score that was written is read back note for note (`fsc_export`)
- a lane number survives the way to a score and back (`fsc_export`)
- no note is lost or made up when notes are grouped and sections sorted, and every
  section goes to one file (`grouping`, `pipeline`, `arrangement`, `output`)
- files are split at sections only, into as few as the threshold allows (`output`)
- the charts of a batch, and those of the difficulties of a project, are those of
  single conversions (`course`)
- text that was written in UTF-16 is read back (`text`, `flp`)
- looking at a file and reading it agree on patterns and tempo (`project`)
- marker counts over lists of inputs add up (`inspect`)
- merging puts the notes of the inputs one after the other (`pipeline`)

What is believed without proof stands in `text`: pushing to a string, characters
from code points, lowercasing, quoting, and numbers with separators (`num-format`).

## The program (`app/`)

`args` is the command line, `window` the window, `convert` and `score` run
conversions, `timing` turns ticks into milliseconds, `writing` writes JSON,
`settings` keeps presets.
