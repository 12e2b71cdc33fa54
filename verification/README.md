# task-var

A task bar for the bottom of a framebuffer console with a touch panel. From left
to right it shows the assistants that run in tmux panes, icons that switch
between tmux sessions, and what the music player plays.

`src/` is the library. The bar's decisions are made there, but for those that
need floating-point numbers, and Verus proves that each function does what its
contract says:

- `scan`, `tuning`: the text that other programs and the environment give.
- `panel`, `grid`, `bar`: where everything lies, and what a tap hits.
- `paint`, `raster`, `sprite`, `picture`, `art`, `text`: what is drawn, in which
  order, and what becomes of the pixels.
- `tmux`, `actions`, `mark`: the sessions and their icons.
- `clawd`: the assistants, the hooks that change their states, and who is shown
  when there is not room for all.
- `mpris`, `np`, `player`, `playing`: the player, and what is shown between a
  touch and its answer.
- `fb`, `term`, `client`: the rotated screen, the rows of the terminal above the
  bar, and the messages of the servers.
- `daemon`, `tap`: how the bar reacts to events.

Laws that relate several functions are public proof functions beside them.

`app/` is the program around the library: it reads and writes the outside world
and does what needs floating-point numbers. It tells a tap from a swipe, measures
text, finds how much of the progress bar is filled and which colours the album
art has, and paints edges, shadows and gradients. It reads its pictures from
`assets/`. `TASKVAR_CLAWD_NAME` is what the assistants are called when the status
is asked for and there are none.

| command | what it does |
|---------|--------------|
| `task-var` | runs the bar |
| `task-var hook-start`, `-question`, `-answer`, `-stop`, `-end` | tells the bar what the assistant in this pane does |
| `task-var status` | prints the assistants that the bar knows of |
