// Macro scenarios: each expands its input with the library and compares
// the text, and runs the expanded code (written out here, with
// `poprako_orchestra` as the crate's path) against the same types.

use std::future::{ready, Ready};
use std::marker::PhantomData;
use std::sync::atomic::{AtomicUsize, Ordering};

use poprako_orchestra::drive_macro::drive;
use poprako_orchestra::proxy_macro::proxy;
use poprako_orchestra::syntax::CrateLookup;
use poprako_orchestra::token::{Delim, Tok};
use poprako_orchestra::{derive_oper, AtLeast, Context, Level, LevelGuard, Oper, Proxy, Run, Step};
use proc_macro2::{Delimiter, Spacing, TokenStream, TokenTree};

fn convert(stream: TokenStream) -> Vec<Tok> {
    stream
        .into_iter()
        .map(|tree| match tree {
            TokenTree::Ident(ident) => Tok::Ident(ident.to_string()),
            TokenTree::Punct(punct) => Tok::Punct(punct.as_char(), punct.spacing() == Spacing::Joint),
            TokenTree::Literal(literal) => Tok::Lit(literal.to_string()),
            TokenTree::Group(group) => {
                let delim = match group.delimiter() {
                    Delimiter::Parenthesis => Delim::Paren,
                    Delimiter::Brace => Delim::Brace,
                    Delimiter::Bracket => Delim::Bracket,
                    Delimiter::None => Delim::Invisible,
                };
                Tok::Group(delim, convert(group.stream()))
            }
        })
        .collect()
}

fn toks(source: &str) -> Vec<Tok> {
    convert(source.parse::<TokenStream>().unwrap())
}

// The token trees of `source`, each followed by one space, whatever the
// spacing of its punctuation.
fn shape_of(stream: TokenStream, out: &mut String) {
    for tree in stream {
        match tree {
            TokenTree::Group(group) => {
                let (open, close) = match group.delimiter() {
                    Delimiter::Parenthesis => ("(", ")"),
                    Delimiter::Brace => ("{", "}"),
                    Delimiter::Bracket => ("[", "]"),
                    Delimiter::None => ("", ""),
                };
                out.push_str(open);
                out.push(' ');
                shape_of(group.stream(), out);
                out.push_str(close);
            }
            other => out.push_str(&other.to_string()),
        }
        out.push(' ');
    }
}

fn normalized(source: &str) -> String {
    let mut out = String::new();
    shape_of(source.parse::<TokenStream>().unwrap(), &mut out);
    out
}

fn lib_path() -> CrateLookup {
    CrateLookup::Name("poprako_orchestra".to_string())
}

struct Transactional;
impl Level for Transactional {}

// #[derive(Oper)] #[oper(output = Option<String>)]
struct ExistAvatar<'a> {
    id: &'a str,
}
impl<'a> Oper for ExistAvatar<'a> {
    type Output = Option<String>;
}

// #[derive(Oper)] #[oper(output = T)]
struct GenericOper<'a, T>
where
    T: std::fmt::Debug + 'a,
{
    payload: &'a T,
}
impl<'a, T> Oper for GenericOper<'a, T>
where
    T: std::fmt::Debug + 'a,
{
    type Output = T;
}

// #[derive(Oper)] #[oper(output = T)]
struct FindUser<T> {
    _payload: T,
}
impl<T> Oper for FindUser<T> {
    type Output = T;
}

// #[derive(Oper)] #[oper(output = T)]
struct UpdateUser<'a, 'b, T> {
    marker: PhantomData<(&'a (), &'b (), T)>,
}
impl<'a, 'b, T> Oper for UpdateUser<'a, 'b, T> {
    type Output = T;
}

const USER_REPO_ARGS: &str = "context = C, error = TestError, run(for<'a> ExistAvatar<'a>, FindUser<T>), step(for<'a, 'b> UpdateUser<'a, 'b, T>),";
const USER_REPO_ITEM: &str = "trait UserRepo<C, T> where T: std::fmt::Debug + Send, {}";

trait UserRepo<C, T>:
    for<'a> poprako_orchestra::Run<ExistAvatar<'a>, Error = TestError>
    + poprako_orchestra::Run<FindUser<T>, Error = TestError>
    + for<'a, 'b> poprako_orchestra::Step<UpdateUser<'a, 'b, T>, C, Error = TestError>
    + for<'a, 'b> poprako_orchestra::LevelGuard<
        <C as poprako_orchestra::Context>::Level,
        <Self as poprako_orchestra::Step<UpdateUser<'a, 'b, T>, C>>::Level,
    >
where
    T: std::fmt::Debug + Send,
    C: poprako_orchestra::Context,
{
}

impl<__DriveImpl, C, T> UserRepo<C, T> for __DriveImpl
where
    T: std::fmt::Debug + Send,
    C: poprako_orchestra::Context,
    __DriveImpl: for<'a> poprako_orchestra::Run<ExistAvatar<'a>, Error = TestError>
        + poprako_orchestra::Run<FindUser<T>, Error = TestError>
        + for<'a, 'b> poprako_orchestra::Step<UpdateUser<'a, 'b, T>, C, Error = TestError>
        + for<'a, 'b> poprako_orchestra::LevelGuard<
            <C as poprako_orchestra::Context>::Level,
            <__DriveImpl as poprako_orchestra::Step<UpdateUser<'a, 'b, T>, C>>::Level,
        >
        + for<'a> poprako_orchestra::Run<ExistAvatar<'a>, Error = TestError>
        + poprako_orchestra::Run<FindUser<T>, Error = TestError>
        + for<'a, 'b> poprako_orchestra::Step<UpdateUser<'a, 'b, T>, C, Error = TestError>
        + for<'a, 'b> poprako_orchestra::LevelGuard<
            <C as poprako_orchestra::Context>::Level,
            <Self as poprako_orchestra::Step<UpdateUser<'a, 'b, T>, C>>::Level,
        >,
{
}

struct TestError;

struct Repo;

impl<'x> Run<ExistAvatar<'x>> for Repo {
    type Error = TestError;
    type Fut<'a> = Ready<Result<Option<String>, TestError>> where Self: 'a, ExistAvatar<'x>: 'a;

    fn run<'a>(&'a self, _oper: &'a ExistAvatar<'x>) -> Self::Fut<'a> {
        ready(Ok(None))
    }
}

impl<T> Run<FindUser<T>> for Repo
where
    T: Send + Sync,
{
    type Error = TestError;
    type Fut<'a> = Ready<Result<T, TestError>> where Self: 'a, FindUser<T>: 'a;

    fn run<'a>(&'a self, _oper: &'a FindUser<T>) -> Self::Fut<'a> {
        panic!()
    }
}

impl<'x, 'y, C, T> Step<UpdateUser<'x, 'y, T>, C> for Repo
where
    C: Context + Send,
    C::Level: AtLeast<Transactional>,
    T: Send + Sync,
{
    type Level = Transactional;
    type Error = TestError;
    type Fut<'a> = Ready<Result<T, TestError>> where Self: 'a, UpdateUser<'x, 'y, T>: 'a, C: 'a;

    fn step<'a>(&'a self, _context: &'a mut C, _oper: &'a UpdateUser<'x, 'y, T>) -> Self::Fut<'a>
    where
        Self: LevelGuard<<C as Context>::Level, Self::Level>,
    {
        panic!()
    }
}

fn assert_output<O: Oper<Output = Output>, Output>() {}

#[test]
fn derives_oper_for_plain_and_generic_structs() {
    let avatar = derive_oper(&toks("#[oper(output = Option<String>)] struct ExistAvatar<'a> { id: &'a str, }")).unwrap();
    assert_eq!(
        normalized(&avatar),
        normalized("impl<'a> Oper for ExistAvatar<'a> { type Output = Option<String>; }")
    );
    let generic = derive_oper(&toks(
        "#[oper(output = T)] struct GenericOper<'a, T> where T: std::fmt::Debug + 'a, { payload: &'a T, }",
    ))
    .unwrap();
    assert_eq!(
        normalized(&generic),
        normalized("impl<'a, T> Oper for GenericOper<'a, T> where T: std::fmt::Debug + 'a, { type Output = T; }")
    );

    assert_output::<ExistAvatar<'_>, Option<String>>();
    assert_output::<GenericOper<'_, String>, String>();

    let oper = ExistAvatar { id: "avatar" };
    assert_eq!(oper.id, "avatar");

    let payload = String::from("payload");
    let oper = GenericOper { payload: &payload };
    assert_eq!(oper.payload, "payload");
    let _ = FindUser { _payload: () };
    let _ = UpdateUser::<()> { marker: PhantomData };
}

fn assert_user_repo<C, T>()
where
    T: std::fmt::Debug + Send + Sync,
    C: Context + Send,
    C::Level: AtLeast<Transactional>,
{
    fn assert_impl<C, T, R>()
    where
        T: std::fmt::Debug + Send,
        C: Context,
        C::Level: AtLeast<Transactional>,
        R: UserRepo<C, T>,
    {
    }

    assert_impl::<C, T, Repo>();
}

struct Cx;

impl Context for Cx {
    type Level = Transactional;
}

#[test]
fn derives_aggregate_repo_trait() {
    let text = drive(&toks(USER_REPO_ARGS), &toks(USER_REPO_ITEM), lib_path()).unwrap();
    let path = "::poprako_orchestra";
    let r1 = format!("for<'a> {path}::Run<ExistAvatar<'a>, Error = TestError>");
    let r2 = format!("{path}::Run<FindUser<T>, Error = TestError>");
    let s1 = format!("for<'a, 'b> {path}::Step<UpdateUser<'a, 'b, T>, C, Error = TestError>");
    let level = |who: &str| {
        format!(
            "for<'a, 'b> {path}::LevelGuard< <C as {path}::Context>::Level, <{who} as {path}::Step<UpdateUser<'a, 'b, T>, C> >::Level>"
        )
    };
    let trait_bounds = format!("{r1} + {r2} + {s1} + {}", level("Self"));
    let impl_bounds = format!("{r1} + {r2} + {s1} + {}", level("__DriveImpl"));
    let expected = format!(
        "trait UserRepo<C, T>: {trait_bounds} where T: std::fmt::Debug + Send, C: {path}::Context {{}} \
         impl<__DriveImpl, C, T> UserRepo<C, T> for __DriveImpl where T: std::fmt::Debug + Send, C: {path}::Context, \
         __DriveImpl: {impl_bounds} + {trait_bounds} {{}}"
    );
    assert_eq!(normalized(&text), normalized(&expected));

    assert_user_repo::<Cx, String>();
}

struct Serializable;
impl Level for Serializable {}

struct SerialCx;
impl Context for SerialCx {
    type Level = Serializable;
}

struct Read;
impl Oper for Read {
    type Output = ();
}

struct Write;
impl Oper for Write {
    type Output = ();
}

trait ReadRepo: poprako_orchestra::Run<Read, Error = ()> {}

impl<__DriveImpl> ReadRepo for __DriveImpl where
    __DriveImpl: poprako_orchestra::Run<Read, Error = ()> + poprako_orchestra::Run<Read, Error = ()>
{
}

trait WriteRepo:
    poprako_orchestra::Step<Write, SerialCx, Error = ()>
    + poprako_orchestra::LevelGuard<
        <SerialCx as poprako_orchestra::Context>::Level,
        <Self as poprako_orchestra::Step<Write, SerialCx>>::Level,
    >
where
    SerialCx: poprako_orchestra::Context,
{
}

impl<__DriveImpl> WriteRepo for __DriveImpl
where
    SerialCx: poprako_orchestra::Context,
    __DriveImpl: poprako_orchestra::Step<Write, SerialCx, Error = ()>
        + poprako_orchestra::LevelGuard<
            <SerialCx as poprako_orchestra::Context>::Level,
            <__DriveImpl as poprako_orchestra::Step<Write, SerialCx>>::Level,
        >
        + poprako_orchestra::Step<Write, SerialCx, Error = ()>
        + poprako_orchestra::LevelGuard<
            <SerialCx as poprako_orchestra::Context>::Level,
            <Self as poprako_orchestra::Step<Write, SerialCx>>::Level,
        >,
{
}

struct RunOnly;
impl Run<Read> for RunOnly {
    type Error = ();
    type Fut<'a> = Ready<Result<(), ()>> where Self: 'a, Read: 'a;

    fn run<'a>(&'a self, _oper: &'a Read) -> Self::Fut<'a> {
        ready(Ok(()))
    }
}

struct StepOnly;
impl Step<Write, SerialCx> for StepOnly {
    type Level = Serializable;
    type Error = ();
    type Fut<'a> = Ready<Result<(), ()>> where Self: 'a, Write: 'a, SerialCx: 'a;

    fn step<'a>(&'a self, _context: &'a mut SerialCx, _oper: &'a Write) -> Self::Fut<'a>
    where
        Self: LevelGuard<<SerialCx as Context>::Level, Self::Level>,
    {
        ready(Ok(()))
    }
}

#[test]
fn drive_keeps_run_and_step_aggregates_independent() {
    let read = drive(&toks("error = (), run(Read)"), &toks("trait ReadRepo {}"), lib_path()).unwrap();
    assert!(!read.contains("Step"));
    let write = drive(&toks("context = Cx, error = (), step(Write)"), &toks("trait WriteRepo {}"), lib_path()).unwrap();
    assert!(!write.contains("Run"));

    fn assert_run<R: ReadRepo>() {}
    fn assert_step<R: WriteRepo>() {}

    assert_run::<RunOnly>();
    assert_step::<StepOnly>();
}

struct RepeatableRead;
impl Level for RepeatableRead {}
impl AtLeast<RepeatableRead> for Serializable {}

struct LevelRepo;
impl Run<Read> for LevelRepo {
    type Error = ();
    type Fut<'a> = Ready<Result<(), ()>> where Self: 'a, Read: 'a;

    fn run<'a>(&'a self, _oper: &'a Read) -> Self::Fut<'a> {
        ready(Ok(()))
    }
}

impl Step<Read, SerialCx> for LevelRepo {
    type Level = RepeatableRead;
    type Error = ();
    type Fut<'a> = Ready<Result<(), ()>> where Self: 'a, Read: 'a, SerialCx: 'a;

    fn step<'a>(&'a self, _context: &'a mut SerialCx, _oper: &'a Read) -> Self::Fut<'a>
    where
        Self: LevelGuard<<SerialCx as Context>::Level, Self::Level>,
    {
        ready(Ok(()))
    }
}

impl Step<Write, SerialCx> for LevelRepo {
    type Level = Serializable;
    type Error = ();
    type Fut<'a> = Ready<Result<(), ()>> where Self: 'a, Write: 'a, SerialCx: 'a;

    fn step<'a>(&'a self, _context: &'a mut SerialCx, _oper: &'a Write) -> Self::Fut<'a>
    where
        Self: LevelGuard<<SerialCx as Context>::Level, Self::Level>,
    {
        ready(Ok(()))
    }
}

trait LevelGuardForRead {}
impl<T> LevelGuardForRead for T where T: Step<Read, SerialCx> + LevelGuard<Serializable, T::Level> {}

#[test]
fn run_has_no_level_and_steps_can_require_different_levels() {
    fn assert_run<R: Run<Read, Error = ()>>() {}
    fn assert_step<R: Step<Read, SerialCx, Error = ()>>()
    where
        R: LevelGuardForRead,
    {
    }
    assert_run::<LevelRepo>();
    assert_step::<LevelRepo>();
}

#[test]
fn rejects_invalid_level_contracts() {
    let rejected = derive_oper(&toks("#[oper(output = (), level = Transactional)] struct LeakedTransactionSemantics;"))
        .unwrap_err();
    assert_eq!(rejected.message, "unsupported oper attribute; expected `output`");
    let duplicate = derive_oper(&toks(
        "#[oper(output = (), level = Transactional, level = Transactional)] struct DuplicateLevel;",
    ))
    .unwrap_err();
    assert_eq!(duplicate.message, "unsupported oper attribute; expected `output`");
}

// proxy! routing.

struct RRead<'a> {
    value: &'a str,
}
impl<'a> Oper for RRead<'a> {
    type Output = usize;
}

struct RWrite<const N: usize>;
impl<const N: usize> Oper for RWrite<N> {
    type Output = usize;
}

struct RFindUser<T, const N: usize> {
    marker: PhantomData<T>,
}
impl<T, const N: usize> Oper for RFindUser<T, N> {
    type Output = usize;
}

struct RCx;
impl Context for RCx {
    type Level = Serializable;
}

struct RunRepo<'a>(&'a AtomicUsize);
impl<'r, 'o> Run<RRead<'o>> for RunRepo<'r> {
    type Error = ();
    type Fut<'a> = Ready<Result<usize, ()>> where Self: 'a, RRead<'o>: 'a;

    fn run<'a>(&'a self, oper: &'a RRead<'o>) -> Self::Fut<'a> {
        self.0.fetch_add(1, Ordering::Relaxed);
        ready(Ok(oper.value.len()))
    }
}

struct StepRepo<'a>(&'a AtomicUsize);
impl<'r> Step<RWrite<3>, RCx> for StepRepo<'r> {
    type Level = Serializable;
    type Error = ();
    type Fut<'a> = Ready<Result<usize, ()>> where Self: 'a, RWrite<3>: 'a, RCx: 'a;

    fn step<'a>(&'a self, _context: &'a mut RCx, _oper: &'a RWrite<3>) -> Self::Fut<'a>
    where
        Self: LevelGuard<<RCx as Context>::Level, Self::Level>,
    {
        self.0.fetch_add(1, Ordering::Relaxed);
        ready(Ok(3))
    }
}

struct GenericRepo;
impl<T: Send + Sync, const N: usize> Run<RFindUser<T, N>> for GenericRepo {
    type Error = ();
    type Fut<'a> = Ready<Result<usize, ()>> where Self: 'a, RFindUser<T, N>: 'a;

    fn run<'a>(&'a self, _oper: &'a RFindUser<T, N>) -> Self::Fut<'a> {
        ready(Ok(N))
    }
}

// proxy! { run { repo => for<'a> RRead<'a>; } }
#[allow(non_camel_case_types)]
struct ReadProxyImpl<'proxy, repo> {
    repo: &'proxy repo,
}

#[allow(non_camel_case_types)]
impl<'proxy, 'a, repo> poprako_orchestra::Proxy<RRead<'a>> for ReadProxyImpl<'proxy, repo>
where
    repo: poprako_orchestra::Run<RRead<'a>>,
{
    type Error = <repo as poprako_orchestra::Run<RRead<'a>>>::Error;
    type Fut<'proxy_exec> = <repo as poprako_orchestra::Run<RRead<'a>>>::Fut<'proxy_exec>
    where
        Self: 'proxy_exec,
        RRead<'a>: 'proxy_exec;

    fn exec<'proxy_exec>(&'proxy_exec mut self, oper: &'proxy_exec RRead<'a>) -> Self::Fut<'proxy_exec> {
        <repo as poprako_orchestra::Run<RRead<'a>>>::run(self.repo, oper)
    }
}

// proxy! { step(context) { repo => for<const N: usize> RWrite<N>; } }
#[allow(non_camel_case_types)]
struct WriteProxyImpl<'proxy, repo, ProxyContext> {
    repo: &'proxy repo,
    context: &'proxy mut ProxyContext,
}

#[allow(non_camel_case_types)]
impl<'proxy, const N: usize, repo, ProxyContext> poprako_orchestra::Proxy<RWrite<N>>
    for WriteProxyImpl<'proxy, repo, ProxyContext>
where
    ProxyContext: poprako_orchestra::Context,
    repo: poprako_orchestra::Step<RWrite<N>, ProxyContext>,
    repo: poprako_orchestra::LevelGuard<
        <ProxyContext as poprako_orchestra::Context>::Level,
        <repo as poprako_orchestra::Step<RWrite<N>, ProxyContext>>::Level,
    >,
{
    type Error = <repo as poprako_orchestra::Step<RWrite<N>, ProxyContext>>::Error;
    type Fut<'proxy_exec> = <repo as poprako_orchestra::Step<RWrite<N>, ProxyContext>>::Fut<'proxy_exec>
    where
        Self: 'proxy_exec,
        RWrite<N>: 'proxy_exec;

    fn exec<'proxy_exec>(&'proxy_exec mut self, oper: &'proxy_exec RWrite<N>) -> Self::Fut<'proxy_exec> {
        <repo as poprako_orchestra::Step<RWrite<N>, ProxyContext>>::step(self.repo, &mut *self.context, oper)
    }
}

// proxy! { run { repo => for<T: Send, const N: usize> RFindUser<T, N>; } }
#[allow(non_camel_case_types)]
struct FindProxyImpl<'proxy, repo> {
    repo: &'proxy repo,
}

#[allow(non_camel_case_types)]
impl<'proxy, T: Send, const N: usize, repo> poprako_orchestra::Proxy<RFindUser<T, N>> for FindProxyImpl<'proxy, repo>
where
    repo: poprako_orchestra::Run<RFindUser<T, N>>,
{
    type Error = <repo as poprako_orchestra::Run<RFindUser<T, N>>>::Error;
    type Fut<'proxy_exec> = <repo as poprako_orchestra::Run<RFindUser<T, N>>>::Fut<'proxy_exec>
    where
        Self: 'proxy_exec,
        RFindUser<T, N>: 'proxy_exec;

    fn exec<'proxy_exec>(&'proxy_exec mut self, oper: &'proxy_exec RFindUser<T, N>) -> Self::Fut<'proxy_exec> {
        <repo as poprako_orchestra::Run<RFindUser<T, N>>>::run(self.repo, oper)
    }
}

fn proxy_text(input: &str) -> String {
    normalized(&proxy(&toks(input), lib_path()).unwrap())
}

#[test]
fn run_adapter_uses_only_run_provider_and_borrows_provider_once() {
    let text = proxy_text("run { repo => for<'a> RRead<'a>; }");
    assert!(text.contains(&normalized("impl<'proxy, 'a, repo> ::poprako_orchestra::Proxy<RRead<'a> > for ProxyImpl<'proxy, repo>")));
    assert!(text.contains(&normalized("struct ProxyImpl<'proxy, repo> { repo: &'proxy repo, }")));
    assert!(!text.contains("Step"));

    let calls = AtomicUsize::new(0);
    let repo = &RunRepo(&calls);
    let mut proxy = ReadProxyImpl { repo };
    let result = proxy.exec(&RRead { value: "abc" }).into_inner();
    assert_eq!(result, Ok(3));
    assert_eq!(calls.load(Ordering::Relaxed), 1);
}

#[test]
fn step_adapter_uses_one_context_and_supports_const_binders() {
    let text = proxy_text("step(context) { repo => for<const N: usize> RWrite<N>; }");
    assert!(text.contains(&normalized("impl<'proxy, const N: usize, repo, ProxyContext>")));
    assert!(text.contains(&normalized("ProxyImpl { context: &mut *context, repo, }")));

    let calls = AtomicUsize::new(0);
    let repo = &StepRepo(&calls);
    let context = &mut RCx;
    let mut proxy = WriteProxyImpl { repo, context: &mut *context };
    let result = proxy.exec(&RWrite::<3>).into_inner();
    assert_eq!(result, Ok(3));
    assert_eq!(calls.load(Ordering::Relaxed), 1);
}

#[test]
fn run_and_step_are_independent_assemblies() {
    let run_text = proxy_text("run { run_repo => for<'a> RRead<'a>; }");
    let step_text = proxy_text("step(context) { step_repo => for<const N: usize> RWrite<N>; }");
    assert!(!run_text.contains("Step") && !run_text.contains("context"));
    assert!(!step_text.contains("Run"));

    let run_calls = AtomicUsize::new(0);
    let step_calls = AtomicUsize::new(0);
    let run_repo = &RunRepo(&run_calls);
    let step_repo = &StepRepo(&step_calls);
    let mut run_adapter = ReadProxyImpl { repo: run_repo };
    let context = &mut RCx;
    let mut step_adapter = WriteProxyImpl { repo: step_repo, context: &mut *context };
    assert_eq!(run_adapter.exec(&RRead { value: "x" }).into_inner(), Ok(1));
    assert_eq!(step_adapter.exec(&RWrite::<3>).into_inner(), Ok(3));
}

#[test]
fn proxy_supports_type_and_const_binders_together() {
    let text = proxy_text("run { repo => for<T: Send, const N: usize> RFindUser<T, N>; }");
    assert!(text.contains(&normalized("impl<'proxy, T: Send, const N: usize, repo>")));

    let repo = &GenericRepo;
    let mut proxy = FindProxyImpl { repo };
    let oper = RFindUser::<String, 7> { marker: PhantomData };
    assert_eq!(proxy.exec(&oper).into_inner(), Ok(7));
}
