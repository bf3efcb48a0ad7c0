//! A publish that stops before the upload, with the registry between cargo and the upstream.

use crate::cli;
use crate::state::ProxyState;
use crate::text;
use std::path::PathBuf;
use vstd::prelude::*;
use vstd::string::*;

verus! {

broadcast use vstd::string::group_string_axioms;

/// The arguments that go on to `cargo publish`: all but the name of the subcommand, which cargo
/// hands over as the first one.
pub open spec fn cargo_args_of(args: Seq<Seq<char>>) -> Seq<Seq<char>> {
    if args.len() > 0 && args[0] == "publish-dry-run"@ {
        args.skip(1)
    } else {
        args
    }
}

/// The arguments that go on to `cargo publish`.
pub fn cargo_args(args: Vec<String>) -> (r: Vec<String>)
    ensures
        text::texts(r@) == cargo_args_of(text::texts(args@)),
{
    let mut out: Vec<String> = Vec::new();
    let ghost all = text::texts(args@);
    let ghost wanted = cargo_args_of(all);
    let mut i: usize = 0;
    if args.len() > 0 && text::same_text(args[0].as_str(), "publish-dry-run") {
        i = 1;
    }
    let ghost start = i as int;
    assert(wanted == all.skip(start));
    while i < args.len()
        invariant
            0 <= start <= i <= args@.len(),
            all == text::texts(args@),
            wanted == all.skip(start),
            out@.len() == i - start,
            forall|j: int| 0 <= j < out@.len() ==> (#[trigger] out@[j])@ == wanted[j],
        decreases args@.len() - i,
    {
        assert(wanted[i - start] == args@[i as int]@);
        out.push(args[i].clone());
        i += 1;
    }
    assert(text::texts(out@) =~= wanted);
    out
}

/// The settings of the registry in a directory: before crates.io, under its URL, and with the
/// checks on metadata that crates.io makes.
pub fn proxy_state(local_registry_path: PathBuf) -> (r: ProxyState)
    ensures
        r.proxy_base_url@ == "https://crates.io"@,
        r.local_registry_path == local_registry_path,
        r.upstream_index@ == "https://index.crates.io"@,
        r.upstream_api@ == "https://crates.io"@,
        !r.permissive_publishing,
{
    ProxyState::new(
        String::from_str("https://crates.io"),
        local_registry_path,
        String::from_str("https://index.crates.io"),
        String::from_str("https://crates.io"),
        false,
    )
}

/// The hosts that are intercepted.
pub fn upstream_hosts() -> (r: Vec<String>)
    ensures
        text::texts(r@) == seq!["index.crates.io"@, "crates.io"@, "static.crates.io"@],
{
    let mut hosts: Vec<String> = Vec::new();
    hosts.push(String::from_str("index.crates.io"));
    hosts.push(String::from_str("crates.io"));
    hosts.push(String::from_str("static.crates.io"));
    assert(text::texts(hosts@) =~= seq![
        "index.crates.io"@,
        "crates.io"@,
        "static.crates.io"@,
    ]);
    hosts
}

/// The proxy that cargo is told to use.
pub fn proxy_url(port: u16) -> (r: String)
    ensures
        r@ == "http://"@ + cli::address("127.0.0.1"@, port),
{
    let local = cli::to_address("127.0.0.1", port);
    text::concat("http://", local.as_str())
}

/// The exit code for how cargo ended: its own, as far as one byte holds it, and 1 where it has
/// none.
pub fn exit_code(success: bool, code: Option<i32>) -> (r: u8)
    ensures
        success ==> r == 0,
        !success && code is Some ==> r == code->0 as int % 256,
        !success && code is None ==> r == 1,
{
    if success {
        return 0;
    }
    match code {
        Some(code) => {
            let shifted: i64 = code as i64 + 0x1_0000_0000;
            (shifted as u64 % 256) as u8
        },
        None => 1,
    }
}

/// All arguments go on to cargo in their order, but for the name of the subcommand in the first
/// place.
pub proof fn law_arguments_go_on(first: Seq<char>, rest: Seq<Seq<char>>)
    ensures
        first == "publish-dry-run"@ ==> cargo_args_of(seq![first] + rest) == rest,
        first != "publish-dry-run"@ ==> cargo_args_of(seq![first] + rest) == seq![first] + rest,
        cargo_args_of(Seq::empty()) == Seq::<Seq<char>>::empty(),
{
    assert((seq![first] + rest).skip(1) =~= rest);
    assert((seq![first] + rest)[0] == first);
}

/// All of cargo's requests to crates.io are intercepted: those to its index, to its API and to its
/// files. The registry stands before that index and that API, and checks metadata.
pub proof fn law_dry_run_stands_before_the_upstream(
    path: PathBuf,
    state: ProxyState,
    hosts: Vec<String>,
)
    requires
        call_ensures(proxy_state, (path,), state),
        call_ensures(upstream_hosts, (), hosts),
    ensures
        crate::http_proxy::is_intercepted("index.crates.io"@, text::texts(hosts@)),
        crate::http_proxy::is_intercepted("crates.io"@, text::texts(hosts@)),
        crate::http_proxy::is_intercepted("static.crates.io"@, text::texts(hosts@)),
        hosts@.len() == 3,
        state.upstream_index@ == "https://index.crates.io"@,
        state.upstream_api@ == "https://crates.io"@,
        state.proxy_base_url@ == state.upstream_api@,
        state.local_registry_path == path,
        !state.permissive_publishing,
{
    let names = text::texts(hosts@);
    assert(names.len() == hosts@.len());
    assert(names[0] == "index.crates.io"@);
    assert(names[1] == "crates.io"@);
    assert(names[2] == "static.crates.io"@);
    crate::http_proxy::law_upstream_hosts_are_intercepted(names, 0);
    crate::http_proxy::law_upstream_hosts_are_intercepted(names, 1);
    crate::http_proxy::law_upstream_hosts_are_intercepted(names, 2);
}

/// The exit code is that of cargo, where it is one; it is zero where cargo went well, and not where
/// it has none of its own.
pub proof fn law_exit_code_is_cargos(success: bool, code: Option<i32>, r: u8)
    requires
        call_ensures(exit_code, (success, code), r),
    ensures
        success ==> r == 0,
        !success ==> (code matches Some(own) ==> (0 <= own < 256 ==> r == own)),
        !success && code is None ==> r == 1,
{
}

} // verus!
