# plugin_potato_live

Watches live rooms, records their streams, and answers with statistics.

- `src/` is the library, verified with Verus: the calendar and clock
  (`calendar`, `clock`), sessions and how they split over days (`session`,
  `split`, `segments`), counts and runs of days (`stats`, `streak`,
  `aggregate`), reports and messages (`report`, `daily`, `hours`, `text`), the
  state of a room (`monitor`), messages of a group (`query`), settings and
  files (`config`, `storage`), and what goes over the wire and the message bus
  (`wire`, `bus`).
- `tests/` runs it on concrete values.
- `app/` is the plugin around it: files, requests, the message bus.

Statistics are exact functions of sessions that are placed on a clock
(`TimedSession`) and of a day. The functions that read the machine's clock and
time zone place the sessions first and then call the exact ones.
