# rss2pan

Sends the magnet links of RSS subscriptions (mikanani.me, nyaa.si,
sukebei.nyaa.si, share.dmhy.org) to the offline-download service of 115.

The library under `src/` is written in Verus; every function there carries a
contract that Verus proves:

- `rss_site`: feed items, the magnet link of an item on each site, the title
  filter of a subscription (`text` or `/regex/`), and the list of magnet items
  of a fetched feed document.
- `rss_config`: the subscriptions of `rss.json` and the lookup of the config of
  a feed url, with the empty default config.
- `yiyiwu`: the add-task requests of 115, what an answer's error code means,
  which items are still to be sent, and the batches of 200.
- `m115`: the parameters of an offline request and the RSA block framing of
  the 115 client.
- `request`: the host of a url, the proxy choice, the cookie source, and the
  headers, cookie and proxy of a request to a site, read from the text of
  `node-site-config.json`.
- `utils`: the links listed one per line in a text file.
- `db`: the statements and rows that the item store writes, and whether a
  site is ready.
- `json`: JSON values as plain data and `serde_json`'s member look-up.
- `form`, `text`: form data as a map, decimal numbers, and string operations.

`app/` holds the command line, the network and database I/O and the reading
of the configuration files; it calls the library for every decision.

Usage:

```bash
rss2pan                 # add the tasks of every feed in rss.json
rss2pan -m              # fetch the feeds of the sites concurrently first
rss2pan -u <feed url>   # one feed; its rss.json config when there is one
rss2pan magnet --link "magnet:?xt=urn:btih:..." --cid <folder id>
rss2pan magnet --txt magnet.txt --cid <folder id>
```
