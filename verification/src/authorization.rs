//! Authorization facts resolved from the daemon's stored manifest.
use vstd::prelude::*;
use crate::refusal::{compose, ErrorCode, Refusal};

verus! {

/// What kind of peer an op is served to.
#[derive(Debug, Clone, Copy, PartialEq, Eq, Structural)]
pub enum Role {
    Renderer,
    /// A plugin the supervisor spawned.
    Plugin,
    /// The user who owns the daemon.
    Operator,
}

/// A command a peer may call, and the signature it was built against.
#[derive(Debug, Clone)]
pub struct GrantedCommand {
    pub plugin: String,
    pub command: String,
    pub signature: Vec<u8>,
}

/// A storage area a peer declared, and whether it writes there.
#[derive(Debug, Clone)]
pub struct GrantedStorage {
    pub id: String,
    pub writable: bool,
}

/// A surface a peer declared, and its kind as a wire value.
#[derive(Debug, Clone)]
pub struct GrantedSurface {
    pub id: String,
    pub kind: i32,
}

/// How a command's address reads in a refusal.
pub open spec fn address_text(plugin: Seq<char>, command: Seq<char>) -> Seq<char> {
    plugin + "/"@ + command
}

/// The signature granted for a command: that of the last declaration of it.
pub open spec fn granted_signature(commands: Seq<GrantedCommand>, plugin: Seq<char>, command: Seq<char>) -> Option<Seq<u8>>
    decreases commands.len(),
{
    if commands.len() == 0 {
        None
    } else if commands.last().plugin@ == plugin && commands.last().command@ == command {
        Some(commands.last().signature@)
    } else {
        granted_signature(commands.drop_last(), plugin, command)
    }
}

/// Whether any declaration grants a command of this name, from any plugin.
pub open spec fn grants_command_id(commands: Seq<GrantedCommand>, command: Seq<char>) -> bool {
    exists|k: int| 0 <= k < commands.len() && #[trigger] commands[k].command@ == command
}

/// Whether a storage area was declared, and whether any declaration of it
/// writes.
pub open spec fn storage_grant(storage: Seq<GrantedStorage>, id: Seq<char>) -> Option<bool>
    decreases storage.len(),
{
    if storage.len() == 0 {
        None
    } else {
        let rest = storage_grant(storage.drop_last(), id);
        if storage.last().id@ == id {
            Some(storage.last().writable || (rest == Some(true)))
        } else {
            rest
        }
    }
}

/// The kind a surface was last declared as.
pub open spec fn surface_kind(surfaces: Seq<GrantedSurface>, id: Seq<char>) -> Option<i32>
    decreases surfaces.len(),
{
    if surfaces.len() == 0 {
        None
    } else if surfaces.last().id@ == id {
        Some(surfaces.last().kind)
    } else {
        surface_kind(surfaces.drop_last(), id)
    }
}

/// What a peer may do, resolved once at the handshake from the daemon's copy
/// of the manifest.
#[derive(Debug)]
pub struct Grants {
    commands: Vec<GrantedCommand>,
    storage: Vec<GrantedStorage>,
    capabilities: Vec<i32>,
    surfaces: Vec<GrantedSurface>,
}

impl Grants {
    pub closed spec fn commands(&self) -> Seq<GrantedCommand> {
        self.commands@
    }

    pub closed spec fn storage_grants(&self) -> Seq<GrantedStorage> {
        self.storage@
    }

    pub closed spec fn capabilities(&self) -> Seq<i32> {
        self.capabilities@
    }

    pub closed spec fn surfaces(&self) -> Seq<GrantedSurface> {
        self.surfaces@
    }

    /// The grants a manifest describes: its capabilities and surfaces, its
    /// storage declarations, the commands it serves (under its own name)
    /// followed by the commands it depends on; a later declaration of a
    /// command replaces an earlier one.
    pub fn of(
        plugin: &str,
        capabilities: Vec<i32>,
        surfaces: Vec<GrantedSurface>,
        storage: Vec<GrantedStorage>,
        served: &Vec<(String, Vec<u8>)>,
        dependencies: Vec<GrantedCommand>,
    ) -> (r: Self)
        ensures
            r.capabilities() == capabilities@,
            r.surfaces() == surfaces@,
            r.storage_grants() == storage@,
            r.commands().len() == served@.len() + dependencies@.len(),
            forall|k: int| 0 <= k < served@.len() ==> {
                &&& (#[trigger] r.commands()[k]).plugin@ == plugin@
                &&& r.commands()[k].command@ == served@[k].0@
                &&& r.commands()[k].signature@ == served@[k].1@
            },
            forall|k: int| 0 <= k < dependencies@.len() ==> #[trigger] r.commands()[served@.len() + k]
                == dependencies@[k],
    {
        let mut commands: Vec<GrantedCommand> = Vec::new();
        let mut k: usize = 0;
        while k < served.len()
            invariant
                k <= served@.len(),
                commands@.len() == k,
                forall|j: int| 0 <= j < k ==> {
                    &&& (#[trigger] commands@[j]).plugin@ == plugin@
                    &&& commands@[j].command@ == served@[j].0@
                    &&& commands@[j].signature@ == served@[j].1@
                },
            decreases served@.len() - k,
        {
            commands.push(
                GrantedCommand {
                    plugin: plugin.to_owned(),
                    command: served[k].0.clone(),
                    signature: served[k].1.clone(),
                },
            );
            k = k + 1;
        }
        let ghost own = commands@;
        let mut dependencies = dependencies;
        commands.append(&mut dependencies);
        Grants { commands, storage, capabilities, surfaces }
    }

    /// No grants at all.
    pub fn none() -> (r: Self)
        ensures
            r.commands().len() == 0,
            r.storage_grants().len() == 0,
            r.capabilities().len() == 0,
            r.surfaces().len() == 0,
    {
        Grants { commands: Vec::new(), storage: Vec::new(), capabilities: Vec::new(), surfaces: Vec::new() }
    }

    /// Whether the peer may read (or, with `write`, write) a storage area.
    pub fn storage(&self, id: &str, write: bool) -> (r: Result<(), Refusal>)
        ensures
            r is Ok <==> (storage_grant(self.storage_grants(), id@) matches Some(writable) && (!write || writable)),
            r matches Err(e) ==> e.code == ErrorCode::PermissionDenied && e.message@ == "storage access not declared for "@ + id@,
    {
        let mut declared = false;
        let mut writable = false;
        let mut k: usize = 0;
        while k < self.storage.len()
            invariant
                k <= self.storage@.len(),
                storage_grant(self.storage@.take(k as int), id@) == (if declared { Some(writable) } else { None::<bool> }),
            decreases self.storage@.len() - k,
        {
            proof {
                assert(self.storage@.take(k + 1).drop_last() =~= self.storage@.take(k as int));
                assert(self.storage@.take(k + 1).last() == self.storage@[k as int]);
            }
            if crate::text::text_eq(self.storage[k].id.as_str(), id) {
                writable = self.storage[k].writable || (declared && writable);
                declared = true;
            }
            k = k + 1;
        }
        proof {
            assert(self.storage@.take(self.storage@.len() as int) =~= self.storage@);
        }
        if declared && (!write || writable) {
            Ok(())
        } else {
            let text = compose("storage access not declared for ", id, "");
            proof {
                reveal_strlit("");
                assert(text@ =~= "storage access not declared for "@ + id@);
            }
            Err(Refusal::denied(text))
        }
    }

    fn signature_of(&self, plugin: &str, command: &str) -> (r: Option<&Vec<u8>>)
        ensures
            match granted_signature(self.commands(), plugin@, command@) {
                Some(s) => r matches Some(found) && found@ == s,
                None => r is None,
            },
    {
        let mut k = self.commands.len();
        proof {
            assert(self.commands@.take(k as int) =~= self.commands@);
        }
        while k > 0
            invariant
                k <= self.commands@.len(),
                granted_signature(self.commands@, plugin@, command@) == granted_signature(self.commands@.take(k as int), plugin@, command@),
            decreases k,
        {
            proof {
                assert(self.commands@.take(k as int).drop_last() =~= self.commands@.take(k - 1));
                assert(self.commands@.take(k as int).last() == self.commands@[k - 1]);
            }
            if crate::text::text_eq(self.commands[k - 1].plugin.as_str(), plugin) && crate::text::text_eq(
                self.commands[k - 1].command.as_str(),
                command,
            ) {
                return Some(&self.commands[k - 1].signature);
            }
            k = k - 1;
        }
        None
    }

    /// Whether the peer declared a command of this name.
    pub fn command_id_access(&self, command: &str) -> (r: Result<(), Refusal>)
        ensures
            r is Ok <==> grants_command_id(self.commands(), command@),
            r matches Err(e) ==> e.code == ErrorCode::PermissionDenied && e.message@ == "command access not declared for "@ + command@,
    {
        let mut k: usize = 0;
        while k < self.commands.len()
            invariant
                k <= self.commands@.len(),
                forall|j: int| 0 <= j < k ==> self.commands@[j].command@ != command@,
            decreases self.commands@.len() - k,
        {
            if crate::text::text_eq(self.commands[k].command.as_str(), command) {
                return Ok(());
            }
            k = k + 1;
        }
        let text = compose("command access not declared for ", command, "");
        proof {
            reveal_strlit("");
            assert(text@ =~= "command access not declared for "@ + command@);
        }
        Err(Refusal::denied(text))
    }

    /// Whether the peer declared the command at this address.
    pub fn command_access(&self, plugin: &str, command: &str) -> (r: Result<(), Refusal>)
        ensures
            r is Ok <==> granted_signature(self.commands(), plugin@, command@) is Some,
            r matches Err(e) ==> e.code == ErrorCode::PermissionDenied
                && e.message@ == "command access not declared for "@ + address_text(plugin@, command@),
    {
        match self.signature_of(plugin, command) {
            Some(_) => Ok(()),
            None => Err(Refusal::denied(crate::authorization::denial(plugin, command))),
        }
    }

    /// Whether the peer declared the command at this address under this
    /// signature.
    pub fn command(&self, plugin: &str, command: &str, signature: &[u8]) -> (r: Result<(), Refusal>)
        ensures
            match granted_signature(self.commands(), plugin@, command@) {
                None => r matches Err(e) && e.code == ErrorCode::PermissionDenied
                    && e.message@ == "command access not declared for "@ + address_text(plugin@, command@),
                Some(s) => if s == signature@ {
                    r is Ok
                } else {
                    r matches Err(e) && e.code == ErrorCode::FailedPrecondition
                        && e.message@ == "incompatible command "@ + address_text(plugin@, command@)
                },
            },
    {
        match self.signature_of(plugin, command) {
            Some(expected) => if crate::text::bytes_equal(expected.as_slice(), signature) {
                Ok(())
            } else {
                Err(Refusal::precondition(incompatible(plugin, command)))
            },
            None => Err(Refusal::denied(denial(plugin, command))),
        }
    }

    /// Whether the peer was granted a capability.
    pub fn holds(&self, capability: i32) -> (r: bool)
        ensures
            r == self.capabilities().contains(capability),
    {
        let mut k: usize = 0;
        while k < self.capabilities.len()
            invariant
                k <= self.capabilities@.len(),
                forall|j: int| 0 <= j < k ==> self.capabilities@[j] != capability,
            decreases self.capabilities@.len() - k,
        {
            if self.capabilities[k] == capability {
                proof {
                    assert(self.capabilities@[k as int] == capability);
                }
                return true;
            }
            k = k + 1;
        }
        false
    }

    /// The kind a surface was declared as, if this peer declared it at all.
    pub fn surface(&self, id: &str) -> (r: Option<i32>)
        ensures
            r == surface_kind(self.surfaces(), id@),
    {
        let mut k = self.surfaces.len();
        proof {
            assert(self.surfaces@.take(k as int) =~= self.surfaces@);
        }
        while k > 0
            invariant
                k <= self.surfaces@.len(),
                surface_kind(self.surfaces@, id@) == surface_kind(self.surfaces@.take(k as int), id@),
            decreases k,
        {
            proof {
                assert(self.surfaces@.take(k as int).drop_last() =~= self.surfaces@.take(k - 1));
                assert(self.surfaces@.take(k as int).last() == self.surfaces@[k - 1]);
            }
            if crate::text::text_eq(self.surfaces[k - 1].id.as_str(), id) {
                return Some(self.surfaces[k - 1].kind);
            }
            k = k - 1;
        }
        None
    }

    /// The capability list sent in `Welcome`, as wire values.
    pub fn wire(&self) -> (r: Vec<i32>)
        ensures
            r@ == self.capabilities(),
    {
        self.capabilities.clone()
    }
}

/// "command access not declared for" and the address.
pub fn denial(plugin: &str, command: &str) -> (r: String)
    ensures
        r@ == "command access not declared for "@ + address_text(plugin@, command@),
{
    let mut text = compose("command access not declared for ", plugin, "/");
    text.append(command);
    proof {
        assert(text@ =~= "command access not declared for "@ + address_text(plugin@, command@));
    }
    text
}

/// "incompatible command" and the address.
pub fn incompatible(plugin: &str, command: &str) -> (r: String)
    ensures
        r@ == "incompatible command "@ + address_text(plugin@, command@),
{
    let mut text = compose("incompatible command ", plugin, "/");
    text.append(command);
    proof {
        assert(text@ =~= "incompatible command "@ + address_text(plugin@, command@));
    }
    text
}

} // verus!
