//! Resolve command authority and target session together before forwarding.
use vstd::prelude::*;
use crate::authorization::{address_text, granted_signature, grants_command_id, GrantedCommand, Grants};
use crate::hosts::calls::endpoint_for;
use crate::keyed::keyed_sorted;
use crate::manifest::{CommandEndpoint, EndpointView, ManifestView, PluginManifest, ValueShape};
use crate::plugins::record::{PluginRecord, PluginRecordView};
use crate::plugins::registry::PluginRegistry;
use crate::plugins::session::RequestError;
use crate::refusal::{compose, ErrorCode, Refusable, RefusableResult, Refusal};

verus! {

/// The manifest a plugin's commands are served under: that of its current
/// session while it holds one, else the one its build declares.
pub open spec fn serving(r: PluginRecordView) -> Option<ManifestView> {
    if (r.session is Some) && (r.contract is Some) {
        r.contract
    } else {
        r.manifest
    }
}

/// Whether a plugin serves `command` now.
pub open spec fn serves(r: PluginRecordView, command: Seq<char>) -> bool {
    serving(r) matches Some(m) && endpoint_for(m.commands, command) is Some
}

/// The plugins that serve `command`, in name order.
pub open spec fn providers_of(entries: Seq<(Seq<char>, PluginRecordView)>, command: Seq<char>) -> Seq<Seq<char>>
    decreases entries.len(),
{
    if entries.len() == 0 {
        Seq::empty()
    } else {
        let rest = providers_of(entries.drop_last(), command);
        if serves(entries.last().1, command) {
            rest.push(entries.last().0)
        } else {
            rest
        }
    }
}

/// The one plugin that serves `command`: refused when none does, when more
/// than one does, and when the caller named another.
pub open spec fn resolution(providers: Seq<Seq<char>>, command: Seq<char>, requested: Seq<char>) -> Result<Seq<char>, (ErrorCode, Seq<char>)> {
    if providers.len() == 0 {
        Err((ErrorCode::InvalidArgument, "no provider declares command "@ + command))
    } else if providers.len() > 1 {
        Err((ErrorCode::FailedPrecondition, "multiple providers for "@ + command))
    } else if requested.len() > 0 && requested != providers[0] {
        Err((ErrorCode::FailedPrecondition, "command provider does not match requested host"@))
    } else {
        Ok(providers[0])
    }
}

/// The manifest a record serves its commands under.
pub fn serving_manifest(record: &PluginRecord) -> (r: Option<&PluginManifest>)
    ensures
        match serving(record@) {
            Some(m) => r matches Some(found) && found@ == m,
            None => r is None,
        },
{
    if record.session.is_some() && record.contract.is_some() {
        record.contract.as_ref()
    } else {
        record.manifest.as_ref()
    }
}

/// The position of the first endpoint for `command`.
pub fn endpoint_position(endpoints: &Vec<CommandEndpoint>, command: &str) -> (r: Option<usize>)
    ensures
        match endpoint_for(endpoints@.map_values(|e: CommandEndpoint| e@), command@) {
            Some(e) => r matches Some(k) && k < endpoints@.len() && endpoints@[k as int]@ == e,
            None => r is None,
        },
{
    let ghost view = endpoints@.map_values(|e: CommandEndpoint| e@);
    let mut k: usize = 0;
    proof {
        assert(view.skip(0) =~= view);
    }
    while k < endpoints.len()
        invariant
            k <= endpoints@.len(),
            view == endpoints@.map_values(|e: CommandEndpoint| e@),
            endpoint_for(view, command@) == endpoint_for(view.skip(k as int), command@),
        decreases endpoints@.len() - k,
    {
        let ghost rest = view.skip(k as int);
        proof {
            assert(rest.drop_first() =~= view.skip(k + 1));
            assert(rest[0] == view[k as int]);
        }
        if crate::text::text_eq(endpoints[k].id.as_str(), command) {
            return Some(k);
        }
        k = k + 1;
    }
    proof {
        assert(view.skip(k as int).len() == 0);
    }
    None
}

/// Where a call goes once it is admitted.
#[derive(Debug)]
pub enum Route {
    /// To the configured command host of that name, with the endpoint's
    /// signature; typed when the caller presented one.
    Host { plugin: String, signature: Vec<u8>, typed: bool },
    /// Over the plugin's current session. With `check_argument`, the single
    /// argument still has to fit the endpoint's declared input type.
    Session { plugin: String, session: u64, endpoint: CommandEndpoint, check_argument: bool },
}

/// Where a call goes, as the contract says it.
pub enum RouteView {
    Host { plugin: Seq<char>, signature: Seq<u8>, typed: bool },
    Session { plugin: Seq<char>, session: u64, endpoint: EndpointView, check_argument: bool },
}

impl View for Route {
    type V = RouteView;

    open spec fn view(&self) -> RouteView {
        match self {
            Route::Host { plugin, signature, typed } => RouteView::Host { plugin: plugin@, signature: signature@, typed: *typed },
            Route::Session { plugin, session, endpoint, check_argument } => RouteView::Session {
                plugin: plugin@,
                session: *session,
                endpoint: endpoint@,
                check_argument: *check_argument,
            },
        }
    }
}

/// Where a call to `command` goes, or why it is refused: the command must be
/// well formed and granted, exactly one plugin must serve it, and the grants
/// must cover its address. A configured command host takes it under the
/// build's manifest; any other plugin under the contract its session was
/// admitted with, checked against the caller's signature and arguments.
pub open spec fn route_of(
    entries: Seq<(Seq<char>, PluginRecordView)>,
    command: Seq<char>,
    valid: Result<(), Seq<char>>,
    requested: Seq<char>,
    call_signature: Seq<u8>,
    args: nat,
    grants: Option<Seq<GrantedCommand>>,
    configured: Seq<Seq<char>>,
) -> Result<RouteView, (ErrorCode, Seq<char>)> {
    match valid {
        Err(reason) => Err((ErrorCode::InvalidArgument, reason)),
        Ok(()) => if grants matches Some(g) && !grants_command_id(g, command) {
            Err((ErrorCode::PermissionDenied, "command access not declared for "@ + command))
        } else {
            match resolution(providers_of(entries, command), command, requested) {
                Err(e) => Err(e),
                Ok(p) => if grants matches Some(g) && (granted_signature(g, p, command) is None) {
                    Err((ErrorCode::PermissionDenied, "command access not declared for "@ + address_text(p, command)))
                } else {
                    let record = crate::keyed::keyed_map(entries)[p];
                    if configured.contains(p) {
                        match record.manifest {
                            None => Err((ErrorCode::Unavailable, "command provider removed"@)),
                            Some(m) => match endpoint_for(m.commands, command) {
                                None => Err((ErrorCode::Unavailable, "command provider removed"@)),
                                Some(e) => match grant_check(grants, p, command, e.signature) {
                                    Err(x) => Err(x),
                                    Ok(()) => if call_signature.len() > 0 && call_signature != e.signature {
                                        Err((ErrorCode::FailedPrecondition, "command signature mismatch"@))
                                    } else {
                                        Ok(RouteView::Host { plugin: p, signature: e.signature, typed: call_signature.len() > 0 })
                                    },
                                },
                            },
                        }
                    } else {
                        match serving(record) {
                            None => Err((ErrorCode::FailedPrecondition, "plugin has no manifest"@)),
                            Some(m) => match endpoint_for(m.commands, command) {
                                None => Err((ErrorCode::InvalidArgument, undeclared_text(p, command, m.commands))),
                                Some(e) => match grant_check(grants, p, command, e.signature) {
                                    Err(x) => Err(x),
                                    Ok(()) => if call_signature.len() > 0 && e.signature != call_signature {
                                        Err((ErrorCode::FailedPrecondition, "incompatible command "@ + address_text(p, command)))
                                    } else {
                                        match (if call_signature.len() > 0 { input_check(e.input, args) } else { Ok(false) }) {
                                            Err(x) => Err(x),
                                            Ok(check) => match record.session {
                                                None => Err((ErrorCode::Unavailable, p + " is not connected"@)),
                                                Some(s) => Ok(RouteView::Session { plugin: p, session: s, endpoint: e, check_argument: check }),
                                            },
                                        }
                                    },
                                },
                            },
                        }
                    }
                },
            }
        },
    }
}

/// The ids of `commands`, in order, joined by ", ".
pub open spec fn ids_text(commands: Seq<EndpointView>) -> Seq<char>
    decreases commands.len(),
{
    if commands.len() == 0 {
        Seq::empty()
    } else if commands.len() == 1 {
        commands[0].id
    } else {
        ids_text(commands.drop_last()) + ", "@ + commands.last().id
    }
}

/// The refusal of a command a plugin does not declare: its address, then
/// the commands the plugin does declare.
pub open spec fn undeclared_text(plugin: Seq<char>, command: Seq<char>, commands: Seq<EndpointView>) -> Seq<char> {
    "undeclared command "@ + address_text(plugin, command) + "; available: "@ + ids_text(commands)
}

/// The ids of `commands`, in order, joined by ", ".
pub fn joined_ids(commands: &Vec<CommandEndpoint>) -> (r: String)
    ensures
        r@ == ids_text(commands@.map_values(|c: CommandEndpoint| c@)),
{
    let ghost v = commands@.map_values(|c: CommandEndpoint| c@);
    let mut text = String::new();
    let mut i: usize = 0;
    proof {
        assert(v.take(0) =~= Seq::<EndpointView>::empty());
    }
    while i < commands.len()
        invariant
            i <= commands@.len(),
            v == commands@.map_values(|c: CommandEndpoint| c@),
            text@ == ids_text(v.take(i as int)),
        decreases commands@.len() - i,
    {
        let ghost before = text@;
        if i > 0 {
            text.append(", ");
        }
        text.append(commands[i].id.as_str());
        proof {
            reveal_strlit(", ");
            let t = v.take(i + 1);
            assert(t.drop_last() =~= v.take(i as int));
            assert(t.last() == commands@[i as int]@);
            if i == 0 {
                assert(text@ =~= t[0].id);
            } else {
                assert(text@ =~= ids_text(t.drop_last()) + ", "@ + t.last().id);
            }
        }
        i = i + 1;
    }
    proof {
        assert(v.take(v.len() as int) =~= v);
    }
    text
}

/// How the caller's arguments meet a typed call's input contract.
pub open spec fn input_check(input: Option<ValueShape>, args: nat) -> Result<bool, (ErrorCode, Seq<char>)> {
    match input {
        None => Err((ErrorCode::FailedPrecondition, "missing command input contract"@)),
        Some(ValueShape::Opaque) => Ok(false),
        Some(ValueShape::Unit) => if args == 0 {
            Ok(false)
        } else {
            Err((ErrorCode::InvalidArgument, "command expects no arguments"@))
        },
        Some(ValueShape::Typed) => if args == 1 {
            Ok(true)
        } else {
            Err((ErrorCode::InvalidArgument, "command expects one argument"@))
        },
    }
}

/// What the grants say of a call at an address under a signature, if there
/// are grants.
pub open spec fn grant_check(grants: Option<Seq<GrantedCommand>>, plugin: Seq<char>, command: Seq<char>, signature: Seq<u8>) -> Result<(), (ErrorCode, Seq<char>)> {
    match grants {
        None => Ok(()),
        Some(g) => match granted_signature(g, plugin, command) {
            None => Err((ErrorCode::PermissionDenied, "command access not declared for "@ + address_text(plugin, command))),
            Some(s) => if s == signature {
                Ok(())
            } else {
                Err((ErrorCode::FailedPrecondition, "incompatible command "@ + address_text(plugin, command)))
            },
        },
    }
}

/// A plugin that serves a command is one the table knows.
proof fn lemma_provider_known(entries: Seq<(Seq<char>, PluginRecordView)>, command: Seq<char>)
    requires
        keyed_sorted(entries),
    ensures
        forall|k: int| 0 <= k < providers_of(entries, command).len() ==> crate::keyed::keyed_map(entries).contains_key(
            #[trigger] providers_of(entries, command)[k],
        ),
    decreases entries.len(),
{
    if entries.len() > 0 {
        let init = entries.drop_last();
        assert forall|i: int, j: int| 0 <= i < j < init.len() implies crate::text::name_lt(#[trigger] init[i].0, #[trigger] init[j].0) by {
            assert(init[i] == entries[i] && init[j] == entries[j]);
        }
        lemma_provider_known(init, command);
        let ps = providers_of(entries, command);
        assert forall|k: int| 0 <= k < ps.len() implies crate::keyed::keyed_map(entries).contains_key(#[trigger] ps[k]) by {
            let rest = providers_of(init, command);
            if k < rest.len() {
                assert(ps[k] == rest[k]);
                let j = choose|j: int| 0 <= j < init.len() && (#[trigger] init[j]).0 == rest[k];
                assert(entries[j] == init[j]);
                assert(crate::keyed::has_key(entries, ps[k]));
            } else {
                assert(ps[k] == entries.last().0);
                assert(entries[entries.len() - 1].0 == ps[k]);
                assert(crate::keyed::has_key(entries, ps[k]));
            }
        }
    }
}

fn check_input(input: Option<ValueShape>, args: usize) -> (r: Result<bool, Refusal>)
    ensures
        match input_check(input, args as nat) {
            Ok(b) => r == Ok::<bool, Refusal>(b),
            Err((code, message)) => r matches Err(e) && e.code == code && e.message@ == message,
        },
{
    match input {
        None => Err(Refusal::precondition("missing command input contract".to_owned())),
        Some(ValueShape::Opaque) => Ok(false),
        Some(ValueShape::Unit) => if args == 0 {
            Ok(false)
        } else {
            Err(Refusal::invalid("command expects no arguments".to_owned()))
        },
        Some(ValueShape::Typed) => if args == 1 {
            Ok(true)
        } else {
            Err(Refusal::invalid("command expects one argument".to_owned()))
        },
    }
}

fn check_grant(grants: Option<&Grants>, plugin: &str, command: &str, signature: &[u8]) -> (r: Result<(), Refusal>)
    ensures
        match grant_check(
            match grants {
                Some(g) => Some(g.commands()),
                None => None,
            },
            plugin@,
            command@,
            signature@,
        ) {
            Ok(()) => r is Ok,
            Err((code, message)) => r matches Err(e) && e.code == code && e.message@ == message,
        },
{
    match grants {
        Some(g) => g.command(plugin, command, signature),
        None => Ok(()),
    }
}

pub fn listed(names: &Vec<String>, name: &str) -> (r: bool)
    ensures
        r == names@.map_values(|s: String| s@).contains(name@),
{
    let ghost view = names@.map_values(|s: String| s@);
    let mut k: usize = 0;
    while k < names.len()
        invariant
            k <= names@.len(),
            view == names@.map_values(|s: String| s@),
            forall|j: int| 0 <= j < k ==> view[j] != name@,
        decreases names@.len() - k,
    {
        if crate::text::text_eq(names[k].as_str(), name) {
            proof {
                assert(view[k as int] == name@);
            }
            return true;
        }
        k = k + 1;
    }
    false
}

impl PluginRegistry {
    /// The plugin that serves `command`, checked against the one the caller
    /// asked for (none, when `requested` is empty).
    pub fn resolve_command(&self, command: &str, requested: &str) -> (r: Result<String, Refusal>)
        ensures
            match resolution(providers_of(self.entries(), command@), command@, requested@) {
                Ok(p) => r matches Ok(name) && name@ == p,
                Err((code, message)) => r matches Err(e) && e.code == code && e.message@ == message,
            },
    {
        let n = self.len();
        let ghost e = self.entries();
        let mut found: Vec<String> = Vec::new();
        let mut k: usize = 0;
        proof {
            assert(e.take(0) =~= Seq::<(Seq<char>, PluginRecordView)>::empty());
        }
        while k < n
            invariant
                n == e.len(),
                e == self.entries(),
                k <= n,
                found@.len() <= 2,
                found@.len() < 2 ==> found@.map_values(|s: String| s@) == providers_of(e.take(k as int), command@),
                found@.len() == 2 ==> providers_of(e.take(k as int), command@).len() >= 2
                    && found@[0]@ == providers_of(e.take(k as int), command@)[0],
            decreases n - k,
        {
            let record = self.record_at(k);
            let ghost before = found@.map_values(|s: String| s@);
            let ghost prior = providers_of(e.take(k as int), command@);
            proof {
                assert(e.take(k + 1).drop_last() =~= e.take(k as int));
                assert(e.take(k + 1).last() == e[k as int]);
            }
            let serves_it = match serving_manifest(record) {
                Some(m) => endpoint_position(&m.commands, command).is_some(),
                None => false,
            };
            if serves_it {
                if found.len() < 2 {
                    found.push(record.name.clone());
                    proof {
                        if before.len() < 2 {
                            assert(found@.map_values(|s: String| s@) =~= before.push(e[k as int].0));
                        }
                    }
                }
            }
            proof {
                let now = providers_of(e.take(k + 1), command@);
                if found@.len() == 2 {
                    assert(now.len() >= 2);
                    if before.len() == 2 {
                        assert(now[0] == prior[0]);
                    } else {
                        assert(found@[0]@ == found@.map_values(|s: String| s@)[0]);
                    }
                }
            }
            k = k + 1;
        }
        proof {
            assert(e.take(n as int) =~= e);
        }
        if found.len() == 0 {
            let text = compose("no provider declares command ", command, "");
            proof {
                reveal_strlit("");
                assert(text@ =~= "no provider declares command "@ + command@);
            }
            return Err(Refusal::invalid(text));
        }
        if found.len() > 1 {
            let text = compose("multiple providers for ", command, "");
            proof {
                reveal_strlit("");
                assert(text@ =~= "multiple providers for "@ + command@);
            }
            return Err(Refusal::precondition(text));
        }
        let provider = found.remove(0);
        proof {
            assert(found@.len() == 0);
        }
        if !requested.is_empty() && !crate::text::text_eq(requested, provider.as_str()) {
            return Err(Refusal::precondition("command provider does not match requested host".to_owned()));
        }
        Ok(provider)
    }
    /// Decide where a call goes: `command_valid` says whether the command is
    /// a well-formed identifier, `requested` names the plugin the caller
    /// meant (empty for any), `signature` is the contract it holds (empty for
    /// an untyped call), `args` how many arguments it passes, and
    /// `configured` the command hosts configured now.
    pub fn invoke_command(
        &self,
        command: &str,
        command_valid: Result<(), String>,
        requested: &str,
        signature: &[u8],
        args: usize,
        grants: Option<&Grants>,
        configured: &Vec<String>,
    ) -> (r: Result<Route, Refusal>)
        ensures
            match route_of(
                self.entries(),
                command@,
                match command_valid {
                    Ok(()) => Ok(()),
                    Err(s) => Err(s@),
                },
                requested@,
                signature@,
                args as nat,
                match grants {
                    Some(g) => Some(g.commands()),
                    None => None,
                },
                configured@.map_values(|s: String| s@),
            ) {
                Ok(route) => r matches Ok(found) && found@ == route,
                Err((code, message)) => r matches Err(e) && e.code == code && e.message@ == message,
            },
    {
        if let Err(reason) = command_valid {
            return Err(Refusal::invalid(reason));
        }
        if let Some(g) = grants {
            g.command_id_access(command)?;
        }
        let count = self.len();
        let provider = self.resolve_command(command, requested)?;
        if let Some(g) = grants {
            g.command_access(provider.as_str(), command)?;
        }
        let record = match self.record_named(provider.as_str()) {
            Some(record) => record,
            None => {
                proof {
                    let ps = providers_of(self.entries(), command@);
                    lemma_provider_known(self.entries(), command@);
                    assert(ps.len() == 1);
                    assert(provider@ == ps[0]);
                    assert(crate::keyed::keyed_map(self.entries()).contains_key(ps[0]));
                    assert(false);
                }
                return Err(Refusal::invalid(compose("", provider.as_str(), " is not a plugin of this build")));
            },
        };
        if listed(configured, provider.as_str()) {
            let manifest = match &record.manifest {
                Some(m) => m,
                None => {
                    return Err(Refusal::unavailable("command provider removed".to_owned()));
                },
            };
            let k = match endpoint_position(&manifest.commands, command) {
                Some(k) => k,
                None => {
                    return Err(Refusal::unavailable("command provider removed".to_owned()));
                },
            };
            let endpoint = &manifest.commands[k];
            check_grant(grants, provider.as_str(), command, endpoint.signature.as_slice())?;
            if signature.len() > 0 && !crate::text::bytes_equal(signature, endpoint.signature.as_slice()) {
                return Err(Refusal::precondition("command signature mismatch".to_owned()));
            }
            let typed = signature.len() > 0;
            return Ok(Route::Host { plugin: provider, signature: endpoint.signature.clone(), typed });
        }
        let manifest = match serving_manifest(record) {
            Some(m) => m,
            None => {
                return Err(Refusal::precondition("plugin has no manifest".to_owned()));
            },
        };
        let k = match endpoint_position(&manifest.commands, command) {
            Some(k) => k,
            None => {
                let mut text = compose("undeclared command ", provider.as_str(), "/");
                text.append(command);
                text.append("; available: ");
                let ids = joined_ids(&manifest.commands);
                text.append(ids.as_str());
                proof {
                    reveal_strlit("; available: ");
                    assert(text@ =~= undeclared_text(provider@, command@, manifest@.commands));
                }
                return Err(Refusal::invalid(text));
            },
        };
        let endpoint = &manifest.commands[k];
        check_grant(grants, provider.as_str(), command, endpoint.signature.as_slice())?;
        if signature.len() > 0 && !crate::text::bytes_equal(endpoint.signature.as_slice(), signature) {
            return Err(Refusal::precondition(crate::authorization::incompatible(provider.as_str(), command)));
        }
        let check_argument = if signature.len() > 0 {
            check_input(endpoint.input, args)?
        } else {
            false
        };
        let session = match record.session {
            Some(s) => s,
            None => {
                let text = compose("", provider.as_str(), " is not connected");
                proof {
                    reveal_strlit("");
                    assert(text@ =~= provider@ + " is not connected"@);
                }
                return Err(Refusal::unavailable(text));
            },
        };
        Ok(Route::Session { plugin: provider, session, endpoint: endpoint.duplicate(), check_argument })
    }
}

/// What a command answered with.
#[derive(Debug, Clone, Copy, PartialEq, Eq, Structural)]
pub enum AnswerShape {
    /// A value; `fits` says whether it fits the declared output type.
    Value { fits: bool },
    /// An acknowledgement without a value.
    Acknowledged,
}

/// Whether an answer meets the endpoint's output contract: an endpoint that
/// declares none takes anything; an acknowledgement does for a unit or
/// opaque output, a value when it fits.
pub open spec fn answer_check(output: Option<ValueShape>, answer: AnswerShape, plugin: Seq<char>, command: Seq<char>) -> Result<(), (ErrorCode, Seq<char>)> {
    match output {
        None => Ok(()),
        Some(shape) => match answer {
            AnswerShape::Acknowledged => if shape == ValueShape::Unit || shape == ValueShape::Opaque {
                Ok(())
            } else {
                Err((ErrorCode::FailedPrecondition, "command returned no value"@))
            },
            AnswerShape::Value { fits } => if fits {
                Ok(())
            } else {
                Err((ErrorCode::FailedPrecondition, "malformed result from "@ + address_text(plugin, command)))
            },
        },
    }
}

/// Check a plugin's answer against the contract it was called under.
pub fn check_answer(output: Option<ValueShape>, answer: AnswerShape, plugin: &str, command: &str) -> (r: Result<(), Refusal>)
    ensures
        match answer_check(output, answer, plugin@, command@) {
            Ok(()) => r is Ok,
            Err((code, message)) => r matches Err(e) && e.code == code && e.message@ == message,
        },
{
    let shape = match output {
        None => {
            return Ok(());
        },
        Some(shape) => shape,
    };
    match answer {
        AnswerShape::Acknowledged => match shape {
            ValueShape::Unit | ValueShape::Opaque => Ok(()),
            ValueShape::Typed => Err(Refusal::precondition("command returned no value".to_owned())),
        },
        AnswerShape::Value { fits } => if fits {
            Ok(())
        } else {
            let mut text = compose("malformed result from ", plugin, "/");
            text.append(command);
            proof {
                assert(text@ =~= "malformed result from "@ + address_text(plugin@, command@));
            }
            Err(Refusal::precondition(text))
        },
    }
}

/// What a call routed to a session ends as, given what the session
/// answered: a request that failed is refused as its error says; an answer
/// is held to the output contract of the endpoint the call was admitted
/// under.
pub fn session_answer(endpoint: &CommandEndpoint, plugin: &str, answered: Result<AnswerShape, RequestError>) -> (r: Result<AnswerShape, Refusal>)
    ensures
        match answered {
            Err(e) => r matches Err(x) && x.code == e.refusal_code() && x.message@ == e.refusal_text(),
            Ok(a) => match answer_check(endpoint.output, a, plugin@, endpoint.id@) {
                Ok(()) => r == Ok::<AnswerShape, Refusal>(a),
                Err((code, message)) => r matches Err(x) && x.code == code && x.message@ == message,
            },
        },
{
    let answer = answered.or_refuse()?;
    check_answer(endpoint.output, answer, plugin, endpoint.id.as_str())?;
    Ok(answer)
}

} // verus!
