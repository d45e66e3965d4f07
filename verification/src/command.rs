//! Command extraction and dispatch: from a parsed frame to a reply, against
//! the store.

use vstd::prelude::*;
use crate::frame::FrameModel;
use crate::frame::Value;
use crate::frame::bytes_eq;
use crate::frame::frames_of;
use crate::store::ItemModel;
use crate::store::Server;
use crate::store::ok_reply;
use crate::store::spec_get_args;
use crate::store::spec_lookup;
use crate::store::spec_set_args;

verus! {

/// A well-formed frame that is not a valid command invocation, or a command
/// the dispatch table does not know. The reply is an error frame; the
/// connection stays open.
#[derive(Clone, Copy, Debug, PartialEq, Eq, Structural)]
pub enum CommandError {
    /// The top-level frame is not an array.
    NotArray,
    /// The command array is empty.
    EmptyCommand,
    /// A command name or argument that must be a bulk string is not one.
    NotBulkString,
    /// The command lacks a required argument.
    WrongArity,
    /// The third `set` argument is not the literal `px`.
    InvalidExpiryOption,
    /// The `px` duration is not a non-negative integer.
    InvalidExpiryValue,
    /// The command name is not in the dispatch table.
    UnknownCommand,
}

/// The payload of a bulk string frame; any other frame is a format error.
pub fn unpack_bulk_str(value: Value) -> (r: Result<Vec<u8>, CommandError>)
    ensures
        match r {
            Ok(s) => value@ is BulkString && s@ == value@->BulkString_0,
            Err(e) => !(value@ is BulkString) && e == CommandError::NotBulkString,
        },
{
    match value {
        Value::BulkString(s) => Ok(s),
        _ => Err(CommandError::NotBulkString),
    }
}

/// The command name and arguments a frame carries: the frame must be a
/// non-empty array whose first element is a bulk string naming the command.
pub open spec fn spec_extract(f: FrameModel) -> Result<(Seq<u8>, Seq<FrameModel>), CommandError> {
    if !(f is Array) {
        Err(CommandError::NotArray)
    } else if f->Array_0.len() == 0 {
        Err(CommandError::EmptyCommand)
    } else if !(f->Array_0[0] is BulkString) {
        Err(CommandError::NotBulkString)
    } else {
        Ok((f->Array_0[0]->BulkString_0, f->Array_0.skip(1)))
    }
}

/// Splits a command frame into its name and its argument frames.
pub fn extract_command(value: Value) -> (r: Result<(Vec<u8>, Vec<Value>), CommandError>)
    ensures
        match r {
            Ok((name, args)) => spec_extract(value@)
                == Ok::<(Seq<u8>, Seq<FrameModel>), CommandError>((name@, frames_of(args@))),
            Err(e) => spec_extract(value@) == Err::<(Seq<u8>, Seq<FrameModel>), CommandError>(e),
        },
{
    let ghost m = value@;
    match value {
        Value::Array(items) => {
            proof {
                crate::frame::lemma_array_view(items);
            }
            if items.len() == 0 {
                return Err(CommandError::EmptyCommand);
            }
            let mut rest = items;
            let first = rest.remove(0);
            match unpack_bulk_str(first) {
                Ok(name) => {
                    proof {
                        assert(frames_of(rest@) =~= m->Array_0.skip(1));
                    }
                    Ok((name, rest))
                }
                Err(e) => Err(e),
            }
        }
        other => {
            proof {
                assert(!(other@ is Array));
            }
            Err(CommandError::NotArray)
        }
    }
}

/// The bytes of the command name `ping`.
pub open spec fn cmd_ping() -> Seq<u8> {
    seq![112u8, 105u8, 110u8, 103u8]
}

/// The bytes of the command name `echo`.
pub open spec fn cmd_echo() -> Seq<u8> {
    seq![101u8, 99u8, 104u8, 111u8]
}

/// The bytes of the command name `get`.
pub open spec fn cmd_get() -> Seq<u8> {
    seq![103u8, 101u8, 116u8]
}

/// The bytes of the command name `set`.
pub open spec fn cmd_set() -> Seq<u8> {
    seq![115u8, 101u8, 116u8]
}

/// The bytes of the reply `PONG`.
pub open spec fn pong_reply() -> Seq<u8> {
    seq![80u8, 79u8, 78u8, 71u8]
}

/// The dispatch table: what reply a command draws and how it changes the
/// store's mapping, names matched case-sensitively against the lowercase
/// literals.
pub open spec fn spec_dispatch(
    name: Seq<u8>,
    args: Seq<FrameModel>,
    m: Map<Seq<u8>, ItemModel>,
    now: u64,
) -> Result<(FrameModel, Map<Seq<u8>, ItemModel>), CommandError> {
    if name == cmd_ping() {
        Ok((FrameModel::SimpleString(pong_reply()), m))
    } else if name == cmd_echo() {
        if args.len() >= 1 {
            Ok((args[0], m))
        } else {
            Err(CommandError::WrongArity)
        }
    } else if name == cmd_get() {
        match spec_get_args(args) {
            Ok(key) => Ok((spec_lookup(m, key, now), m)),
            Err(e) => Err(e),
        }
    } else if name == cmd_set() {
        match spec_set_args(args) {
            Ok((key, val, ttl)) => Ok((
                FrameModel::SimpleString(ok_reply()),
                m.insert(key, (ItemModel { value: val, created_at: now, expiration: ttl })),
            )),
            Err(e) => Err(e),
        }
    } else {
        Err(CommandError::UnknownCommand)
    }
}

fn ping_lit() -> (r: Vec<u8>)
    ensures
        r@ == cmd_ping(),
{
    let mut v: Vec<u8> = Vec::new();
    v.push(112);
    v.push(105);
    v.push(110);
    v.push(103);
    proof {
        assert(v@ =~= cmd_ping());
    }
    v
}

fn echo_lit() -> (r: Vec<u8>)
    ensures
        r@ == cmd_echo(),
{
    let mut v: Vec<u8> = Vec::new();
    v.push(101);
    v.push(99);
    v.push(104);
    v.push(111);
    proof {
        assert(v@ =~= cmd_echo());
    }
    v
}

fn get_lit() -> (r: Vec<u8>)
    ensures
        r@ == cmd_get(),
{
    let mut v: Vec<u8> = Vec::new();
    v.push(103);
    v.push(101);
    v.push(116);
    proof {
        assert(v@ =~= cmd_get());
    }
    v
}

fn set_lit() -> (r: Vec<u8>)
    ensures
        r@ == cmd_set(),
{
    let mut v: Vec<u8> = Vec::new();
    v.push(115);
    v.push(101);
    v.push(116);
    proof {
        assert(v@ =~= cmd_set());
    }
    v
}

fn pong_lit() -> (r: Vec<u8>)
    ensures
        r@ == pong_reply(),
{
    let mut v: Vec<u8> = Vec::new();
    v.push(80);
    v.push(79);
    v.push(78);
    v.push(71);
    proof {
        assert(v@ =~= pong_reply());
    }
    v
}

/// Answers one command against the store, as the dispatch table says.
pub fn dispatch(name: &Vec<u8>, args: Vec<Value>, server: &mut Server, now_millis: u64) -> (r: Result<Value, CommandError>)
    requires
        old(server).wf(),
    ensures
        final(server).wf(),
        match r {
            Ok(v) => spec_dispatch(name@, frames_of(args@), old(server)@, now_millis)
                == Ok::<(FrameModel, Map<Seq<u8>, ItemModel>), CommandError>((v@, final(server)@)),
            Err(e) => spec_dispatch(name@, frames_of(args@), old(server)@, now_millis)
                == Err::<(FrameModel, Map<Seq<u8>, ItemModel>), CommandError>(e)
                && final(server)@ == old(server)@,
        },
{
    let ping = ping_lit();
    if bytes_eq(name, &ping) {
        return Ok(Value::SimpleString(pong_lit()));
    }
    let echo = echo_lit();
    if bytes_eq(name, &echo) {
        if args.len() == 0 {
            return Err(CommandError::WrongArity);
        }
        let mut rest = args;
        let first = rest.remove(0);
        return Ok(first);
    }
    let get = get_lit();
    if bytes_eq(name, &get) {
        return server.get(args, now_millis);
    }
    let set = set_lit();
    if bytes_eq(name, &set) {
        return server.set(args, now_millis);
    }
    Err(CommandError::UnknownCommand)
}

/// The error frame a command fault draws: `-ERR <message>\r\n`, ready for
/// the wire.
pub open spec fn spec_error_reply(e: CommandError) -> Seq<u8> {
    match e {
        CommandError::NotArray => seq![45u8, 69u8, 82u8, 82u8, 32u8, 101u8, 120u8, 112u8, 101u8, 99u8, 116u8, 101u8, 100u8, 32u8, 97u8, 114u8, 114u8, 97u8, 121u8, 13u8, 10u8],
        CommandError::EmptyCommand => seq![45u8, 69u8, 82u8, 82u8, 32u8, 101u8, 109u8, 112u8, 116u8, 121u8, 32u8, 99u8, 111u8, 109u8, 109u8, 97u8, 110u8, 100u8, 13u8, 10u8],
        CommandError::NotBulkString => seq![45u8, 69u8, 82u8, 82u8, 32u8, 101u8, 120u8, 112u8, 101u8, 99u8, 116u8, 101u8, 100u8, 32u8, 98u8, 117u8, 108u8, 107u8, 32u8, 115u8, 116u8, 114u8, 105u8, 110u8, 103u8, 13u8, 10u8],
        CommandError::WrongArity => seq![45u8, 69u8, 82u8, 82u8, 32u8, 119u8, 114u8, 111u8, 110u8, 103u8, 32u8, 110u8, 117u8, 109u8, 98u8, 101u8, 114u8, 32u8, 111u8, 102u8, 32u8, 97u8, 114u8, 103u8, 117u8, 109u8, 101u8, 110u8, 116u8, 115u8, 13u8, 10u8],
        CommandError::InvalidExpiryOption => seq![45u8, 69u8, 82u8, 82u8, 32u8, 105u8, 110u8, 118u8, 97u8, 108u8, 105u8, 100u8, 32u8, 101u8, 120u8, 112u8, 105u8, 114u8, 121u8, 32u8, 111u8, 112u8, 116u8, 105u8, 111u8, 110u8, 13u8, 10u8],
        CommandError::InvalidExpiryValue => seq![45u8, 69u8, 82u8, 82u8, 32u8, 105u8, 110u8, 118u8, 97u8, 108u8, 105u8, 100u8, 32u8, 101u8, 120u8, 112u8, 105u8, 114u8, 121u8, 32u8, 118u8, 97u8, 108u8, 117u8, 101u8, 13u8, 10u8],
        CommandError::UnknownCommand => seq![45u8, 69u8, 82u8, 82u8, 32u8, 117u8, 110u8, 107u8, 110u8, 111u8, 119u8, 110u8, 32u8, 99u8, 111u8, 109u8, 109u8, 97u8, 110u8, 100u8, 13u8, 10u8],
    }
}

/// Encodes a command fault as the error frame the connection answers with,
/// so a bad command never tears the connection down.
pub fn encode_error(e: &CommandError) -> (r: Vec<u8>)
    ensures
        r@ == spec_error_reply(*e),
{
    match e {
        CommandError::NotArray => {
            let v: Vec<u8> = vec![45u8, 69u8, 82u8, 82u8, 32u8, 101u8, 120u8, 112u8, 101u8, 99u8, 116u8, 101u8, 100u8, 32u8, 97u8, 114u8, 114u8, 97u8, 121u8, 13u8, 10u8];
            proof {
                assert(v@ =~= spec_error_reply(*e));
            }
            v
        }
        CommandError::EmptyCommand => {
            let v: Vec<u8> = vec![45u8, 69u8, 82u8, 82u8, 32u8, 101u8, 109u8, 112u8, 116u8, 121u8, 32u8, 99u8, 111u8, 109u8, 109u8, 97u8, 110u8, 100u8, 13u8, 10u8];
            proof {
                assert(v@ =~= spec_error_reply(*e));
            }
            v
        }
        CommandError::NotBulkString => {
            let v: Vec<u8> = vec![45u8, 69u8, 82u8, 82u8, 32u8, 101u8, 120u8, 112u8, 101u8, 99u8, 116u8, 101u8, 100u8, 32u8, 98u8, 117u8, 108u8, 107u8, 32u8, 115u8, 116u8, 114u8, 105u8, 110u8, 103u8, 13u8, 10u8];
            proof {
                assert(v@ =~= spec_error_reply(*e));
            }
            v
        }
        CommandError::WrongArity => {
            let v: Vec<u8> = vec![45u8, 69u8, 82u8, 82u8, 32u8, 119u8, 114u8, 111u8, 110u8, 103u8, 32u8, 110u8, 117u8, 109u8, 98u8, 101u8, 114u8, 32u8, 111u8, 102u8, 32u8, 97u8, 114u8, 103u8, 117u8, 109u8, 101u8, 110u8, 116u8, 115u8, 13u8, 10u8];
            proof {
                assert(v@ =~= spec_error_reply(*e));
            }
            v
        }
        CommandError::InvalidExpiryOption => {
            let v: Vec<u8> = vec![45u8, 69u8, 82u8, 82u8, 32u8, 105u8, 110u8, 118u8, 97u8, 108u8, 105u8, 100u8, 32u8, 101u8, 120u8, 112u8, 105u8, 114u8, 121u8, 32u8, 111u8, 112u8, 116u8, 105u8, 111u8, 110u8, 13u8, 10u8];
            proof {
                assert(v@ =~= spec_error_reply(*e));
            }
            v
        }
        CommandError::InvalidExpiryValue => {
            let v: Vec<u8> = vec![45u8, 69u8, 82u8, 82u8, 32u8, 105u8, 110u8, 118u8, 97u8, 108u8, 105u8, 100u8, 32u8, 101u8, 120u8, 112u8, 105u8, 114u8, 121u8, 32u8, 118u8, 97u8, 108u8, 117u8, 101u8, 13u8, 10u8];
            proof {
                assert(v@ =~= spec_error_reply(*e));
            }
            v
        }
        CommandError::UnknownCommand => {
            let v: Vec<u8> = vec![45u8, 69u8, 82u8, 82u8, 32u8, 117u8, 110u8, 107u8, 110u8, 111u8, 119u8, 110u8, 32u8, 99u8, 111u8, 109u8, 109u8, 97u8, 110u8, 100u8, 13u8, 10u8];
            proof {
                assert(v@ =~= spec_error_reply(*e));
            }
            v
        }
    }
}

/// What one parsed frame does to the store and answers: the command is
/// extracted and dispatched; a fault is reported without touching the store.
pub open spec fn spec_handle(
    f: FrameModel,
    m: Map<Seq<u8>, ItemModel>,
    now: u64,
) -> Result<(FrameModel, Map<Seq<u8>, ItemModel>), CommandError> {
    match spec_extract(f) {
        Ok((name, args)) => spec_dispatch(name, args, m, now),
        Err(e) => Err(e),
    }
}

/// Handles one parsed frame against the store: extracts the command and
/// dispatches it, answering the reply frame.
pub fn handle_frame(frame: Value, server: &mut Server, now_millis: u64) -> (r: Result<Value, CommandError>)
    requires
        old(server).wf(),
    ensures
        final(server).wf(),
        match r {
            Ok(v) => spec_handle(frame@, old(server)@, now_millis)
                == Ok::<(FrameModel, Map<Seq<u8>, ItemModel>), CommandError>((v@, final(server)@)),
            Err(e) => spec_handle(frame@, old(server)@, now_millis)
                == Err::<(FrameModel, Map<Seq<u8>, ItemModel>), CommandError>(e)
                && final(server)@ == old(server)@,
        },
{
    match extract_command(frame) {
        Ok((name, args)) => dispatch(&name, args, server, now_millis),
        Err(e) => Err(e),
    }
}

} // verus!
