//! Turns a framed [`Message`] into the typed command it carries.
//!
//! This is the decision core of the per-connection dispatcher: the loop that
//! reads the socket hands each well-framed message here and then carries out
//! the returned command (spawning the process, loading the configuration
//! file) before acknowledging the client.

use vstd::prelude::*;

use crate::error::Error;
use crate::packet::{spec_decode_lua_services, spec_decode_service, LuaServices, Message, PacketId, Service};

verus! {

/// A fully decoded command, ready to be carried out.
#[derive(Clone, Debug)]
pub enum Command {
    /// Start the described service and route to it.
    AttachService(Service),
    /// Protocol-accepted and deliberately without server-side effect.
    DetachService,
    /// Load and attach the services declared in the named configuration file.
    LuaServices(LuaServices),
}

/// Resolves a message's id to a command and decodes its payload: the attach
/// payload as a [`Service`] descriptor, the bulk-load payload as a file
/// path, the detach payload as nothing. An unknown id or an ill-formed
/// payload is an error for the message's connection; no command comes back.
pub fn parse_message(msg: &Message) -> (r: Result<Command, Error>)
    ensures
        match r {
            Ok(c) => match c {
                Command::AttachService(s) => msg.id == PacketId::AttachService.spec_code()
                    && s.wf() && spec_decode_service(msg.data@) == Some(s@),
                Command::DetachService => msg.id == PacketId::DetachService.spec_code(),
                Command::LuaServices(l) => msg.id == PacketId::LuaServices.spec_code()
                    && l.wf() && spec_decode_lua_services(msg.data@) == Some(l@),
            },
            Err(e) => {
                ||| (e == Error::UnknownCommand && msg.id != 1 && msg.id != 2 && msg.id != 3)
                ||| (e == Error::MalformedPayload && (
                    (msg.id == 1 && spec_decode_service(msg.data@) is None)
                    || (msg.id == 3 && spec_decode_lua_services(msg.data@) is None)
                ))
            },
        },
{
    let cmd = match PacketId::try_from(msg.id) {
        Ok(cmd) => cmd,
        Err(_) => {
            return Err(Error::UnknownCommand);
        },
    };
    match cmd {
        PacketId::AttachService => {
            let service = Service::try_from(msg.data.as_slice())?;
            Ok(Command::AttachService(service))
        },
        PacketId::DetachService => Ok(Command::DetachService),
        PacketId::LuaServices => {
            let lua_services = LuaServices::try_from(msg.data.as_slice())?;
            Ok(Command::LuaServices(lua_services))
        },
    }
}

} // verus!
