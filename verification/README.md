# con_workspace

The logic of the con terminal workspace, verified with Verus: what the
window does with its tabs, panes and surfaces, its command histories, the
input bar's completions, and the control requests that arrive over the
`con-cli` socket.

- `src/` is the verified library. Each module states its behaviour in
  `requires`/`ensures` over `Seq`, `Map` and `Set` models; the `law_*`
  proof functions state properties that span calls.
  - `workspace`: the window's state (tabs, histories, waiting requests).
  - `tabs`: tab ids, activation, closing, drag reordering.
  - `deferred`: waiting requests that follow their tabs; session-save
    coalescing.
  - `window`: waiting `tabs.new` / `tabs.close` requests.
  - `routing`: agent provider/model routing, its defaults and application.
  - `panes`: pane and surface targeting.
  - `history`: shell and input histories, history completion.
  - `completion`, `suggest`: path completion and suggestion choice.
  - `naming`, `chrome`, `scope`, `keys`: labels, titles, key handling.
  - `control`, `watch`: control-request checks and refusal texts, pane
    waits (planning, polling, the deadline), exec refusals.
  - `text`: character-level helpers.
- `tests/` runs the library on concrete values.
- `app/` is the unverified edge: directory listings, the saver thread,
  environment, JSON answers, answering the requests the workspace hands
  back, floating-point appearance math.
