# App Store Scraper

Scrapes the top applications of the App Store and their customer reviews into an SQLite database.

## Run

Without arguments the scraper runs for all applications that were discovered through the top
rankings, the last updated first. Once it has scraped more than a thousand applications it chooses
among them instead: those that it has not scraped yet, those with the most reviews to expect, and
those whose last scraping lies back the longest, up to a thousand of each:

```
$ app-store-scraper
```

Specific applications can be asked for in the `SCRAPE_APP_IDS` environment variable, or one of them
with `--app-id`:

```
$ SCRAPE_APP_IDS=389801252,951627425 app-store-scraper
$ app-store-scraper --app-id 389801252
```

`--mode apps` discovers applications through the top rankings, and `--mode resolve-missing` looks
up the applications that have reviews but are not known.

## Layout

- `src/` is the library, verified with Verus: reading the feeds (`xml`, `nodes`, `entry`, `review`,
  `app_version`), pulling the reviews of an application page by page (`feeds`, `pull`), choosing
  what to scrape (`scrape`), the rows and statements of the database (`records`), and what pulls and
  lookups make of its tables (`tables`).
- `app/` is the program around it: arguments, requests, the database and the metrics server.
- `tests/` runs the library.

What the library takes on trust of `chrono`, `xmltree` and the standard library stands in
`timestamp` and `xml`, on the functions that call them.
