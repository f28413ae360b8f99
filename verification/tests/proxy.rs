// The proxies below are written out as the `run_proxy!` and `step_proxy!`
// declarative macros expand: one struct with a reference per provider (and
// the context for a step proxy), one `Proxy` impl per operation.

use std::future::{ready, Ready};

use poprako_orchestra::{AtLeast, Context, Level, LevelGuard, Oper, Proxy, Run, Step};

struct PlainOper;

impl Oper for PlainOper {
    type Output = ();
}

struct BorrowedOper<'a>(&'a str);

impl Oper for BorrowedOper<'_> {
    type Output = ();
}

struct DoublyBorrowedOper<'first, 'second>(&'first str, &'second str);

impl Oper for DoublyBorrowedOper<'_, '_> {
    type Output = ();
}

struct Repo;

impl Run<PlainOper> for Repo {
    type Error = ();
    type Fut<'a> = Ready<Result<(), ()>> where Self: 'a, PlainOper: 'a;

    fn run<'a>(&'a self, _oper: &'a PlainOper) -> Self::Fut<'a> {
        ready(Ok(()))
    }
}

impl<'b> Run<BorrowedOper<'b>> for Repo {
    type Error = ();
    type Fut<'a> = Ready<Result<(), ()>> where Self: 'a, BorrowedOper<'b>: 'a;

    fn run<'a>(&'a self, oper: &'a BorrowedOper<'b>) -> Self::Fut<'a> {
        let _ = oper.0;
        ready(Ok(()))
    }
}

impl<'f, 's> Run<DoublyBorrowedOper<'f, 's>> for Repo {
    type Error = ();
    type Fut<'a> = Ready<Result<(), ()>> where Self: 'a, DoublyBorrowedOper<'f, 's>: 'a;

    fn run<'a>(&'a self, oper: &'a DoublyBorrowedOper<'f, 's>) -> Self::Fut<'a> {
        let _ = oper.0;
        let _ = oper.1;
        ready(Ok(()))
    }
}

struct Plain;

impl Level for Plain {}

struct UnitContext;

impl Context for UnitContext {
    type Level = Plain;
}

impl<'f, 's> Step<DoublyBorrowedOper<'f, 's>, UnitContext> for Repo {
    type Level = Plain;
    type Error = ();
    type Fut<'a> = Ready<Result<(), ()>>
    where
        Self: 'a,
        DoublyBorrowedOper<'f, 's>: 'a,
        UnitContext: 'a;

    fn step<'a>(
        &'a self,
        _context: &'a mut UnitContext,
        oper: &'a DoublyBorrowedOper<'f, 's>,
    ) -> Self::Fut<'a>
    where
        Self: LevelGuard<<UnitContext as Context>::Level, Self::Level>,
    {
        let _ = oper.0;
        let _ = oper.1;
        ready(Ok(()))
    }
}

#[allow(non_camel_case_types)]
struct RunProxy<'run_proxy_repo, repo> {
    repo: &'run_proxy_repo repo,
}

#[allow(non_camel_case_types)]
impl<'run_proxy_repo, repo> Proxy<PlainOper> for RunProxy<'run_proxy_repo, repo>
where
    repo: Run<PlainOper>,
{
    type Error = <repo as Run<PlainOper>>::Error;
    type Fut<'a> = <repo as Run<PlainOper>>::Fut<'a> where Self: 'a, PlainOper: 'a;

    fn exec<'a>(&'a mut self, oper: &'a PlainOper) -> Self::Fut<'a> {
        <repo as Run<PlainOper>>::run(self.repo, oper)
    }
}

#[allow(non_camel_case_types)]
impl<'b, 'run_proxy_repo, repo> Proxy<BorrowedOper<'b>> for RunProxy<'run_proxy_repo, repo>
where
    repo: Run<BorrowedOper<'b>>,
{
    type Error = <repo as Run<BorrowedOper<'b>>>::Error;
    type Fut<'a> = <repo as Run<BorrowedOper<'b>>>::Fut<'a> where Self: 'a, BorrowedOper<'b>: 'a;

    fn exec<'a>(&'a mut self, oper: &'a BorrowedOper<'b>) -> Self::Fut<'a> {
        <repo as Run<BorrowedOper<'b>>>::run(self.repo, oper)
    }
}

#[allow(non_camel_case_types)]
impl<'first, 'second, 'run_proxy_repo, repo> Proxy<DoublyBorrowedOper<'first, 'second>>
    for RunProxy<'run_proxy_repo, repo>
where
    repo: Run<DoublyBorrowedOper<'first, 'second>>,
{
    type Error = <repo as Run<DoublyBorrowedOper<'first, 'second>>>::Error;
    type Fut<'a> = <repo as Run<DoublyBorrowedOper<'first, 'second>>>::Fut<'a>
    where
        Self: 'a,
        DoublyBorrowedOper<'first, 'second>: 'a;

    fn exec<'a>(&'a mut self, oper: &'a DoublyBorrowedOper<'first, 'second>) -> Self::Fut<'a> {
        <repo as Run<DoublyBorrowedOper<'first, 'second>>>::run(self.repo, oper)
    }
}

#[allow(non_camel_case_types)]
struct StepProxy<'step_proxy_context, 'step_proxy_repo, StepProxyContext, repo> {
    context: &'step_proxy_context mut StepProxyContext,
    repo: &'step_proxy_repo repo,
}

#[allow(non_camel_case_types)]
impl<'first, 'second, 'step_proxy_context, 'step_proxy_repo, StepProxyContext, repo>
    Proxy<DoublyBorrowedOper<'first, 'second>>
    for StepProxy<'step_proxy_context, 'step_proxy_repo, StepProxyContext, repo>
where
    StepProxyContext: Context,
    repo: Step<DoublyBorrowedOper<'first, 'second>, StepProxyContext>,
    repo: LevelGuard<
        <StepProxyContext as Context>::Level,
        <repo as Step<DoublyBorrowedOper<'first, 'second>, StepProxyContext>>::Level,
    >,
{
    type Error = <repo as Step<DoublyBorrowedOper<'first, 'second>, StepProxyContext>>::Error;
    type Fut<'a> = <repo as Step<DoublyBorrowedOper<'first, 'second>, StepProxyContext>>::Fut<'a>
    where
        Self: 'a,
        DoublyBorrowedOper<'first, 'second>: 'a;

    fn exec<'a>(&'a mut self, oper: &'a DoublyBorrowedOper<'first, 'second>) -> Self::Fut<'a> {
        <repo as Step<DoublyBorrowedOper<'first, 'second>, StepProxyContext>>::step(
            self.repo,
            &mut *self.context,
            oper,
        )
    }
}

fn require_at_least<P: AtLeast<R>, R: Level>() {}

#[test]
fn run_proxy_supports_plain_oper() {
    let repo = &Repo;
    let mut proxy = RunProxy { repo };

    drop(proxy.exec(&PlainOper));
}

#[test]
fn run_proxy_supports_borrowed_oper() {
    let repo = &Repo;
    let mut proxy = RunProxy { repo };

    drop(proxy.exec(&BorrowedOper("value")));
}

#[test]
fn run_proxy_supports_multiple_borrowed_lifetimes() {
    let repo = &Repo;
    let mut proxy = RunProxy { repo };

    drop(proxy.exec(&DoublyBorrowedOper("first", "second")));
}

#[test]
fn step_proxy_supports_multiple_borrowed_lifetimes() {
    let repo = &Repo;
    let mut context = UnitContext;
    let context = &mut context;
    let mut proxy = StepProxy { context: &mut *context, repo };

    drop(proxy.exec(&DoublyBorrowedOper("first", "second")));
}

#[test]
fn a_level_is_at_least_itself() {
    require_at_least::<Plain, Plain>();
}
