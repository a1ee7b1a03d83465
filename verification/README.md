# task_bot

The verified core of a Discord bot that runs task threads for a community:
members join tasks in project forums, mentors rate them when a task is
closed, scores are credited, and a shop sells pages for score.

- `src/` is the library, written in Verus. Every function there carries a
  contract that Verus proves: the records (members, tasks, tags, projects,
  roles, shop pages), the board that keeps tasks and member records in
  agreement, localization, logging decisions, command declarations and
  dispatch, the save server's paths and menus, folder linking, old-format
  conversion and the embeds' fields.
  Calls into outside crates (`dashmap`, `serde_yaml`, `scraper`, `chrono`)
  and into the few std functions that Verus does not specify
  (`String::push`, `str::to_lowercase`) stand behind small trusted
  wrappers whose contracts are stated in their doc comments.
- `tests/` runs the library on concrete values.
- `app/` is the program around it: configuration and record files, the
  HTTP requests to the save server, and the conversion of old databases.
