# deepseek_cli

A terminal monitor for DeepSeek platform usage (balance, period cost,
requests, tokens, per-model and daily breakdowns) with WeChat QR login.
The decisions and computations are a library verified with Verus; the
program around it performs the requests, prompts and printing.

## Layout

- `src/` — the verified library.
  - `usage.rs`: flattening the per-key usage replies into daily and
    per-model summaries, the account currency, time ranges, count formatting.
  - `accounting.rs`: laws on how the period, day and model tallies add up.
  - `ratio.rs`: decimal text of integer ratios as binary64 division and
    fixed-precision printing give it (round to nearest, ties to even).
  - `status.rs`: choosing the reporting range from arguments and prompts.
  - `wechat.rs`: QR page parsing, the polling state machine, the OAuth
    redirect walk and the token-exchange reply.
  - `api.rs`, `auth.rs`, `error.rs`: reply envelopes, token input, errors.
  - `calendar.rs`, `text.rs`, `types.rs`, `constants.rs`: supporting pieces.
- `tests/` — tests of the library.
- `app/` — the `deepseek` command: HTTP (ureq), JSON (serde), prompts
  (inquire), tables (tabled), QR rendering (qrcode), token storage (confy),
  and the floating-point money values.
