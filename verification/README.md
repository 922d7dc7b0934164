# blockfetch

Downloads a file in blocks, with several range requests at a time.

The library under `src/` holds what a download decides and computes, with contracts that Verus
proves:

- `blocks`: how a file is divided into blocks, and what its blocks make together.
- `manager`: which worker gets which block, what happens when one fails, and where bytes belong.
- `worker`: the request for a block, and what comes back.
- `laws`: what holds of a download as a whole, whatever events come.
- `util`: what addresses and headers say, and how speeds and times are shown.
- `speed` and `progress`: the speed meter and the line that shows the progress.
- `errors` and `text`: messages, and the text they are made of.
- `outside`: what is called of other crates, and what is taken on trust about it.

The manager makes one step for each event and says what is to be done next. The program under
`app/` does it: it sends requests, writes the file and prints.
