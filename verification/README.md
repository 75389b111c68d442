# KaoBot

A Telegram bot that keeps a household's shared expenses: type `rice 60`,
send the bank slip, ask `/summary`. Each chat has its own ledger in
Supabase; an overpayment is kept as credit that later expenses use up.

The rules of the bot are a library verified with Verus; amounts are integer
satang (hundredths of a baht).

- `src/text.rs`: decimal digits, padding, white space and trimming, joining lines.
- `src/money.rs`: writing amounts as baht (`{:.2}` and `{:.0}` style) and reading them back.
- `src/number.rs`: reading numbers as JSON writes them (`1e+16`, `1.5e-7`) to the satang.
- `src/parser.rs`: reading an expense (`item amount`) from a message.
- `src/ledger.rs`: the credit rules of a settlement, with their laws.
- `src/payment.rs`: the steps of settling a payment and of clearing expenses, in the order the ledger is read and written, each naming its chat.
- `src/replies.rs`: the replies to expenses, payments, slips, cancelling and clearing.
- `src/clock.rs`: Bangkok times of day (the civil calendar, read through chrono) and the start of today.
- `src/reports.rs`: the summary, today's list and the history (latest first).
- `src/slip.rs`: the Base64 photo, the JSON object in Gemini's answer and the slip read from it.
- `src/bot.rs`: which chat is served, who sent a message, what a text asks for.
- `src/supabase.rs`: the REST requests and rows of a chat's ledger, always filtered by or carrying the chat.

`app/` is the program around it: Telegram (teloxide), HTTP (reqwest),
JSON bodies (serde), the environment, and the conversion of Supabase's
floating-point baht to satang.
