# degc

degc (Docker Egress Gateway Controller) routes the internet egress of selected
containers through shared gateways. A container opts in with a label, or a
gateway selects it; its traffic is marked and policy-routed to the gateway. A
gateway whose egress is not there is closed: its members' traffic is dropped.

The library under `src/` is verified with Verus. It holds everything that is
decided or computed:

| module | what it holds |
| --- | --- |
| `api::v1alpha1` | gateways, labels, selectors, and what makes them valid |
| `plan` | which container goes through which gateway, and where it leaves |
| `enforce::nft` | the nftables script, with the kill switch |
| `enforce::route` | the `ip` commands, and the check of the host before them |
| `enforce::run` | applying a state step by step |
| `reconcile` | one reconcile, its summary, its report and what is logged of it; the status |
| `daemon` | when to reconcile and when to stop |
| `obs` | the metrics, on top of `prometheus_client` |
| `config` | the settings and the gateways file |
| `docker`, `net`, `ordered`, `text`, `seqs` | containers, addresses, ordered maps and sets, texts, searching |

Each type has a model in terms of sequences, maps and sets, and each function
says in its contract what it returns over these models. The `laws` modules,
`enforce::listing`, and sections of `text`, `net`, `daemon`, `config` and
`reconcile`, state what holds across functions: that no two gateways share a mark or a table, that an explicit opt-in
wins over selectors, that no container goes two ways, that every address of a
member is either marked or dropped, that nothing is programmed before the host
has been checked, that a change of the routed addresses is reported, and more.

What the library takes from other crates stands behind small functions whose
contracts are believed: parsing networks (`net`), quoting text (`text`), and the
handles and the exposition of metrics (`obs::series`).

The program under `app/` reads the settings, the gateways file and the
containers, runs `nft` and `ip`, and serves the metrics.
