# drink_rooms

Rooms in which players log the drinks they have. A room counts drinks in
units of 0.33 l or 0.5 l; a player's score is what they drank over the
room's unit, and taking a drink back never brings a score below zero. Rooms
that see no activity for 48 hours are removed.

- `src/` is the verified library (Verus): room codes (`room_id`), unit sizes
  (`units`), the request and reply values (`models`), the store of rooms and
  players (`store`), the reply to each API request (`handlers`) and the
  properties that span operations (`laws`).
- `app/` is the HTTP server (axum) around it: routes, JSON, the clock, the
  hourly cleanup.
- `tests/` runs the library on concrete requests.
