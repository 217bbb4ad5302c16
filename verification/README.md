# cc_switch_notify

Desktop quota notifications for CC Switch: threshold alerts (80 / 95 / 100 %),
reset reminders (five minutes before a tier resets, and at the reset), "balance
exhausted" notices and automatic-switch notices, in four languages.

- `src/` — the verified library (Verus): localized texts (`texts`), template
  filling (`render`, `strings`), dedup keys and the provider short hash (`keys`),
  the persisted dedup state (`dedup`, `store`), chrono conversions (`clock`), the
  decisions of each flow (`notify`) and the properties proved across calls (`laws`).
- `app/` — the Tauri side: JSON persistence, OS delivery, reminder tasks, commands.
- `tests/` — executable tests of the library.
