//! Decisions of the client's launcher that do not touch the outside world.
use vstd::prelude::*;

verus! {

/// What the launcher did.
pub enum ExecutionAction<R> {
    /// Nothing keeps running; holds the text to print, if any.
    Instant(Option<String>),
    /// A client was started and keeps running until it is shut down.
    Running(R),
}

/// Settings of the dapps server.
pub struct DappsConfiguration {
    pub enabled: bool,
}

/// Settings of the HTTP RPC server.
pub struct HttpConfiguration {
    pub interface: String,
    pub port: u16,
}

/// The decimal digit character of `d`.
pub open spec fn digit_char(d: nat) -> char {
    ((48 + d) as u8) as char
}

/// The decimal text of `n`, without leading zeros.
pub open spec fn decimal(n: nat) -> Seq<char>
    decreases n,
{
    if n < 10 {
        seq![digit_char(n)]
    } else {
        decimal(n / 10).push(digit_char(n % 10))
    }
}

/// Relies on ToString for u16: its decimal text.
#[verifier::external_body]
fn decimal_text(n: u16) -> (r: String)
    ensures
        r@ == decimal(n as nat),
{
    n.to_string()
}

/// The address at which the dapp `dapp` is served.
pub open spec fn dapp_url(rpc: &HttpConfiguration, dapp: Seq<char>) -> Seq<char> {
    "http://"@ + rpc.interface@ + ":"@ + decimal(rpc.port as nat) + "/"@ + dapp + "/"@
}

/// The address to open for the dapp `dapp`; refused while dapps are off.
pub fn open_dapp(dapps_conf: &DappsConfiguration, rpc_conf: &HttpConfiguration, dapp: &str) -> (r: Result<
    String,
    String,
>)
    ensures
        r is Err <==> !dapps_conf.enabled,
        match r {
            Ok(url) => url@ == dapp_url(rpc_conf, dapp@),
            Err(e) => e@ == "Cannot use DAPP command with Dapps turned off."@,
        },
{
    if !dapps_conf.enabled {
        return Err("Cannot use DAPP command with Dapps turned off.".to_string());
    }
    let port = decimal_text(rpc_conf.port);
    let mut url = "http://".to_string();
    url.append(rpc_conf.interface.as_str());
    url.append(":");
    url.append(port.as_str());
    url.append("/");
    url.append(dapp);
    url.append("/");
    assert(url@ =~= dapp_url(rpc_conf, dapp@));
    Ok(url)
}

/// Settings of the browser interface.
pub struct UiConfiguration {
    pub enabled: bool,
    pub info_page_only: bool,
}

/// What starting a node involves before the client itself runs.
pub struct RunPlan {
    /// Warn that the built-in browser interface is deprecated.
    pub warn_deprecated_ui: bool,
    /// Check whether another instance already serves the interface; if so,
    /// only open the interface and stop.
    pub probe_running_instance: bool,
    /// Open the interface in a browser.
    pub open_ui: bool,
    /// Open the requested dapp in a browser.
    pub open_dapp: bool,
}

/// The steps before running a node, from the interface settings, whether the
/// interface was asked for, the dapps settings, and whether a dapp was named.
pub fn plan_run(ui_conf: &UiConfiguration, ui: bool, dapps_conf: &DappsConfiguration, has_dapp: bool) -> (r:
    RunPlan)
    ensures
        r.warn_deprecated_ui == (ui_conf.enabled && !ui_conf.info_page_only),
        r.probe_running_instance == (ui && dapps_conf.enabled),
        r.open_ui == ui,
        r.open_dapp == has_dapp,
{
    RunPlan {
        warn_deprecated_ui: ui_conf.enabled && !ui_conf.info_page_only,
        probe_running_instance: ui && dapps_conf.enabled,
        open_ui: ui,
        open_dapp: has_dapp,
    }
}

/// Whether the interface may be opened; refused while it is turned off.
pub fn ui_allowed(ui_conf: &UiConfiguration) -> (r: Result<(), String>)
    ensures
        r is Err <==> !ui_conf.enabled,
        match r {
            Ok(_) => true,
            Err(e) => e@ == "Cannot use UI command with UI turned off."@,
        },
{
    if !ui_conf.enabled {
        return Err("Cannot use UI command with UI turned off.".to_string());
    }
    Ok(())
}

} // verus!
