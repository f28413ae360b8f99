# poprako-orchestra

Traits for composing operations and executing them with or without a
transaction context, with the logic of the crate's macros proved by Verus.

## Layout

- `src/`: the verified library.
  - `level.rs`, `oper.rs`, `step.rs`, `proxy.rs`, `nucl.rs`: the traits
    (`Level`, `AtLeast`, `Context`, `LevelGuard`, `Oper`, `Run`, `Step`,
    `OperRun`, `OperStep`, `Proxy`) and the nucleus error.
  - `token.rs`: token trees, as the macros see them, and how they print.
  - `error.rs`: macro errors and where in the input they point.
  - `syntax.rs`: what the macros ask of `syn` (whether it accepts a text,
    its error's message, or the token trees of the generics it splits).
  - `grammar.rs`: where a type, a `for<...>` binder or a generic parameter
    list ends inside a token sequence.
  - `proxy_macro.rs`, `drive_macro.rs`, `oper_macro.rs`: the grammars and
    expansions of `proxy!`, `#[drive(..)]` and `#[derive(Oper)]`, each an
    executable function with an exact specification.
  - `orchestra.rs`: the path under which generated code names the crate.
- `tests/`: tests of the library and of the code the macros generate.
- `app/`: the glue to `proc_macro2` token streams and the lookup of the
  crate's name (which reads the environment and the manifests on disk),
  the `Nucl` trait, the `run_proxy!` / `step_proxy!` macros and the
  `Display` / `Error` impls of the nucleus error. Its `proxy`, `drive` and
  `derive_oper` functions are the bodies of the procedural macros; a
  `proc-macro` crate registers them.

## Executors name their futures

`Run::run`, `Step::step` and `Proxy::exec` return a future that the
implementation names as the generic associated type `Fut<'a>`, so an
implementation writes that type out (for instance a boxed future, or a
named future type) instead of writing `async fn`:

```rust
impl Run<FindUser> for Repo {
    type Error = BaseError;
    type Fut<'a> = Pin<Box<dyn Future<Output = Result<User, BaseError>> + Send + 'a>>;

    fn run<'a>(&'a self, oper: &'a FindUser) -> Self::Fut<'a> {
        Box::pin(async move { /* ... */ })
    }
}
```

`OperRun::run_on` and `OperStep::step_on` are the only operation-side
helpers; there is no `proxy_on`.
