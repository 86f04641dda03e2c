//! The binary wire protocol of the control channel.
//!
//! Every message is framed as `[id, data_size, payload...]` where the payload
//! holds exactly `data_size` bytes. The attach payload is a [`Service`]
//! descriptor: a run of length-prefixed fields followed by a two-byte port.
//! Multi-byte numbers travel low byte first, and a decoder accepts a buffer
//! only when it is consumed exactly, so that encoding and decoding invert one
//! another byte for byte.

use vstd::prelude::*;

use crate::error::Error;

verus! {

/// The first two bytes of every control-channel message: the command id and
/// the byte length of the payload that follows.
#[derive(Clone, Copy, Debug, PartialEq, Eq, Structural)]
pub struct PacketHeader {
    pub id: u8,
    pub data_size: u8,
}

impl PacketHeader {
    /// The header as it travels on the wire.
    pub open spec fn spec_encode(self) -> Seq<u8> {
        seq![self.id, self.data_size]
    }

    /// Reads a header from the first two bytes of a buffer. Fails exactly
    /// when fewer than two bytes were supplied; extra bytes after the header
    /// are left for the message decoder to account for.
    pub fn try_from(bytes: &[u8]) -> (r: Result<PacketHeader, Error>)
        ensures
            match r {
                Ok(h) => bytes@.len() >= 2 && h.id == bytes@[0] && h.data_size == bytes@[1],
                Err(e) => bytes@.len() < 2 && e == Error::MalformedHeader,
            },
    {
        if bytes.len() < 2 {
            return Err(Error::MalformedHeader);
        }
        Ok(PacketHeader { id: *vstd::slice::slice_index_get(bytes, 0), data_size: *vstd::slice::slice_index_get(bytes, 1) })
    }

    /// Writes the two header bytes.
    pub fn to_bytes(&self) -> (r: Vec<u8>)
        ensures
            r@ == self.spec_encode(),
    {
        let mut out: Vec<u8> = Vec::new();
        out.push(self.id);
        out.push(self.data_size);
        proof {
            assert(out@ =~= self.spec_encode());
        }
        out
    }
}

/// A whole framed message: the header fields together with the payload.
#[derive(Clone, Debug)]
pub struct Message {
    pub id: u8,
    pub data_size: u8,
    pub data: Vec<u8>,
}

impl Message {
    /// The frame is coherent: the declared size is the actual payload length.
    pub open spec fn wf(self) -> bool {
        self.data@.len() == self.data_size
    }

    /// The message as it travels on the wire.
    pub open spec fn spec_encode(self) -> Seq<u8> {
        seq![self.id, self.data_size] + self.data@
    }

    /// Reads one message from a buffer. The buffer must hold exactly
    /// `2 + data_size` bytes: a shorter or longer buffer is rejected, never
    /// silently trimmed or padded.
    pub fn try_from(bytes: &[u8]) -> (r: Result<Message, Error>)
        ensures
            match r {
                Ok(m) => {
                    &&& bytes@.len() == 2 + bytes@[1]
                    &&& m.wf()
                    &&& m.id == bytes@[0]
                    &&& m.data_size == bytes@[1]
                    &&& m.data@ == bytes@.skip(2)
                },
                Err(e) => {
                    ||| (bytes@.len() < 2 && e == Error::MalformedHeader)
                    ||| (bytes@.len() >= 2 && bytes@.len() != 2 + bytes@[1]
                        && e == Error::TruncatedMessage)
                },
            },
    {
        let header = PacketHeader::try_from(bytes)?;
        if bytes.len() != 2 + header.data_size as usize {
            return Err(Error::TruncatedMessage);
        }
        let data = vstd::slice::slice_to_vec(vstd::slice::slice_subrange(bytes, 2, bytes.len()));
        Ok(Message { id: header.id, data_size: header.data_size, data })
    }

    /// Writes the frame back out: the two header bytes, then the payload.
    pub fn to_bytes(&self) -> (r: Vec<u8>)
        requires
            self.wf(),
        ensures
            r@ == self.spec_encode(),
    {
        let mut out: Vec<u8> = Vec::new();
        out.push(self.id);
        out.push(self.data_size);
        let mut i: usize = 0;
        while i < self.data.len()
            invariant
                i <= self.data@.len(),
                out@ == seq![self.id, self.data_size] + self.data@.take(i as int),
            decreases self.data@.len() - i,
        {
            out.push(self.data[i]);
            i = i + 1;
            proof {
                assert(seq![self.id, self.data_size] + self.data@.take(i - 1) + seq![self.data@[i - 1]]
                    =~= seq![self.id, self.data_size] + self.data@.take(i as int));
            }
        }
        proof {
            assert(self.data@.take(self.data@.len() as int) =~= self.data@);
        }
        out
    }
}

/// Spec-level image of a decoded [`Service`] descriptor: each field as the
/// bytes (or number) it carries, with the redundant length prefixes dropped.
#[verifier::ext_equal]
pub struct SpecService {
    pub name: Seq<u8>,
    pub svc_type: u8,
    pub path: Seq<u8>,
    pub cmd: Seq<u8>,
    pub args: Seq<u8>,
    pub port: u16,
}

/// An encodable descriptor never has a field longer than its one-byte length
/// prefix can declare.
pub open spec fn spec_service_wf(s: SpecService) -> bool {
    &&& s.name.len() <= 255
    &&& s.path.len() <= 255
    &&& s.cmd.len() <= 255
    &&& s.args.len() <= 255
}

/// The descriptor as it travels on the wire: four length-prefixed byte
/// fields and a one-byte type, closed by the port, low byte first.
pub open spec fn spec_encode_service(s: SpecService) -> Seq<u8> {
    seq![s.name.len() as u8] + s.name + seq![s.svc_type] + seq![s.path.len() as u8] + s.path
        + seq![s.cmd.len() as u8] + s.cmd + seq![s.args.len() as u8] + s.args
        + seq![(s.port % 256) as u8, (s.port / 256) as u8]
}

/// A length-prefixed field starting at `pos` lies inside the buffer.
pub open spec fn lp_field_ok(b: Seq<u8>, pos: int) -> bool {
    0 <= pos < b.len() && pos + 1 + b[pos] <= b.len()
}

/// The bytes of the length-prefixed field starting at `pos`.
pub open spec fn lp_field(b: Seq<u8>, pos: int) -> Seq<u8> {
    b.subrange(pos + 1, pos + 1 + b[pos])
}

/// The position just after the length-prefixed field starting at `pos`.
pub open spec fn lp_next(b: Seq<u8>, pos: int) -> int {
    pos + 1 + b[pos]
}

/// What a buffer holds as a descriptor, if anything: the fields in their
/// fixed order, accepted only when the buffer is consumed exactly.
pub open spec fn spec_decode_service(b: Seq<u8>) -> Option<SpecService> {
    if !lp_field_ok(b, 0) {
        None
    } else {
        let p1 = lp_next(b, 0);
        if p1 >= b.len() {
            None
        } else {
            let p2 = p1 + 1;
            if !lp_field_ok(b, p2) {
                None
            } else {
                let p3 = lp_next(b, p2);
                if !lp_field_ok(b, p3) {
                    None
                } else {
                    let p4 = lp_next(b, p3);
                    if !lp_field_ok(b, p4) {
                        None
                    } else {
                        let p5 = lp_next(b, p4);
                        if p5 + 2 != b.len() {
                            None
                        } else {
                            Some(
                                SpecService {
                                    name: lp_field(b, 0),
                                    svc_type: b[p1],
                                    path: lp_field(b, p2),
                                    cmd: lp_field(b, p3),
                                    args: lp_field(b, p4),
                                    port: (b[p5] as int + 256 * (b[p5 + 1] as int)) as u16,
                                },
                            )
                        }
                    }
                }
            }
        }
    }
}

/// The attach command's payload: a service descriptor, kept here in the
/// exact shape it has on the wire, length prefixes included.
#[derive(Clone, Debug)]
pub struct Service {
    pub name_len: u8,
    pub svc_name: Vec<u8>,
    pub svc_type: u8,
    pub svc_path_len: u8,
    pub svc_path: Vec<u8>,
    pub cmd_len: u8,
    pub cmd: Vec<u8>,
    pub cmd_args_len: u8,
    pub cmd_args: Vec<u8>,
    pub svc_port: u16,
}

impl View for Service {
    type V = SpecService;

    open spec fn view(&self) -> SpecService {
        SpecService {
            name: self.svc_name@,
            svc_type: self.svc_type,
            path: self.svc_path@,
            cmd: self.cmd@,
            args: self.cmd_args@,
            port: self.svc_port,
        }
    }
}

impl Service {
    /// Each length byte states the exact length of the field it prefixes.
    pub open spec fn wf(self) -> bool {
        &&& self.svc_name@.len() == self.name_len
        &&& self.svc_path@.len() == self.svc_path_len
        &&& self.cmd@.len() == self.cmd_len
        &&& self.cmd_args@.len() == self.cmd_args_len
    }

    /// Reads a descriptor from a buffer, walking the length-prefixed fields
    /// in their fixed order. Fails exactly when a declared length overruns
    /// the remaining buffer, the type or port bytes are missing, or bytes
    /// are left over at the end.
    pub fn try_from(bytes: &[u8]) -> (r: Result<Service, Error>)
        ensures
            match r {
                Ok(s) => s.wf() && spec_decode_service(bytes@) == Some(s@),
                Err(e) => spec_decode_service(bytes@) is None && e == Error::MalformedPayload,
            },
    {
        let (svc_name, p1) = read_lp_field(bytes, 0)?;
        if p1 >= bytes.len() {
            return Err(Error::MalformedPayload);
        }
        let svc_type = *vstd::slice::slice_index_get(bytes, p1);
        let (svc_path, p3) = read_lp_field(bytes, p1 + 1)?;
        let (cmd, p4) = read_lp_field(bytes, p3)?;
        let (cmd_args, p5) = read_lp_field(bytes, p4)?;
        if bytes.len() - p5 != 2 {
            return Err(Error::MalformedPayload);
        }
        let lo = *vstd::slice::slice_index_get(bytes, p5);
        let hi = *vstd::slice::slice_index_get(bytes, p5 + 1);
        let svc_port: u16 = lo as u16 + 256 * (hi as u16);
        Ok(Service {
            name_len: svc_name.len() as u8,
            svc_name,
            svc_type,
            svc_path_len: svc_path.len() as u8,
            svc_path,
            cmd_len: cmd.len() as u8,
            cmd,
            cmd_args_len: cmd_args.len() as u8,
            cmd_args,
            svc_port,
        })
    }

    /// Writes the descriptor back out in the wire order, the port low byte
    /// first.
    pub fn to_bytes(&self) -> (r: Vec<u8>)
        requires
            self.wf(),
        ensures
            r@ == spec_encode_service(self@),
    {
        let mut out: Vec<u8> = Vec::new();
        out.push(self.name_len);
        out.extend_from_slice(self.svc_name.as_slice());
        out.push(self.svc_type);
        out.push(self.svc_path_len);
        out.extend_from_slice(self.svc_path.as_slice());
        out.push(self.cmd_len);
        out.extend_from_slice(self.cmd.as_slice());
        out.push(self.cmd_args_len);
        out.extend_from_slice(self.cmd_args.as_slice());
        out.push((self.svc_port % 256) as u8);
        out.push((self.svc_port / 256) as u8);
        proof {
            assert(out@ =~= spec_encode_service(self@));
        }
        out
    }
}

/// Reads the length-prefixed field starting at `pos`: one length byte, then
/// that many field bytes.
fn read_lp_field(bytes: &[u8], pos: usize) -> (r: Result<(Vec<u8>, usize), Error>)
    ensures
        match r {
            Ok((f, next)) => {
                &&& lp_field_ok(bytes@, pos as int)
                &&& f@ == lp_field(bytes@, pos as int)
                &&& next == lp_next(bytes@, pos as int)
                &&& next <= bytes@.len()
            },
            Err(e) => !lp_field_ok(bytes@, pos as int) && e == Error::MalformedPayload,
        },
{
    if pos >= bytes.len() {
        return Err(Error::MalformedPayload);
    }
    let l = *vstd::slice::slice_index_get(bytes, pos) as usize;
    if bytes.len() - pos - 1 < l {
        return Err(Error::MalformedPayload);
    }
    let f = vstd::slice::slice_to_vec(vstd::slice::slice_subrange(bytes, pos + 1, pos + 1 + l));
    Ok((f, pos + 1 + l))
}

/// Round trip of the descriptor codec: decoding an encoded descriptor gives
/// the descriptor back, field for field, whenever its fields fit their
/// one-byte length prefixes.
pub proof fn lemma_service_round_trip(s: SpecService)
    requires
        spec_service_wf(s),
    ensures
        spec_decode_service(spec_encode_service(s)) == Some(s),
{
    let b = spec_encode_service(s);
    let p1 = 1 + s.name.len() as int;
    let p2 = p1 + 1;
    let p3 = p2 + 1 + s.path.len() as int;
    let p4 = p3 + 1 + s.cmd.len() as int;
    let p5 = p4 + 1 + s.args.len() as int;
    assert(b.len() == p5 + 2);
    assert(b[0] == s.name.len() as u8);
    assert(lp_field(b, 0) =~= s.name);
    assert(b[p1] == s.svc_type);
    assert(b[p2] == s.path.len() as u8);
    assert(lp_field(b, p2) =~= s.path);
    assert(b[p3] == s.cmd.len() as u8);
    assert(lp_field(b, p3) =~= s.cmd);
    assert(b[p4] == s.args.len() as u8);
    assert(lp_field(b, p4) =~= s.args);
    assert(b[p5] == (s.port % 256) as u8);
    assert(b[p5 + 1] == (s.port / 256) as u8);
    assert((b[p5] as int + 256 * (b[p5 + 1] as int)) as u16 == s.port);
    assert(spec_decode_service(b) == Some(s));
}

/// What a buffer holds as a [`LuaServices`] payload, if anything: one
/// length-prefixed file path, accepted only when the buffer is consumed
/// exactly.
pub open spec fn spec_decode_lua_services(b: Seq<u8>) -> Option<Seq<u8>> {
    if lp_field_ok(b, 0) && lp_next(b, 0) == b.len() {
        Some(lp_field(b, 0))
    } else {
        None
    }
}

/// The payload of the command that bulk-loads services from a configuration
/// file: the path of that file, length-prefixed.
#[derive(Clone, Debug)]
pub struct LuaServices {
    pub filepath_len: u8,
    pub filepath: Vec<u8>,
}

impl View for LuaServices {
    type V = Seq<u8>;

    open spec fn view(&self) -> Seq<u8> {
        self.filepath@
    }
}

impl LuaServices {
    /// The length byte states the exact length of the path.
    pub open spec fn wf(self) -> bool {
        self.filepath@.len() == self.filepath_len
    }

    /// The payload as it travels on the wire.
    pub open spec fn spec_encode(self) -> Seq<u8> {
        seq![self.filepath_len] + self.filepath@
    }

    /// Reads the payload from a buffer; rejects a path that overruns the
    /// buffer and bytes left over after it.
    pub fn try_from(bytes: &[u8]) -> (r: Result<LuaServices, Error>)
        ensures
            match r {
                Ok(l) => l.wf() && spec_decode_lua_services(bytes@) == Some(l@),
                Err(e) => spec_decode_lua_services(bytes@) is None
                    && e == Error::MalformedPayload,
            },
    {
        let (filepath, next) = read_lp_field(bytes, 0)?;
        if next != bytes.len() {
            return Err(Error::MalformedPayload);
        }
        Ok(LuaServices { filepath_len: filepath.len() as u8, filepath })
    }

    /// Writes the payload back out: the length byte, then the path bytes.
    pub fn to_bytes(&self) -> (r: Vec<u8>)
        requires
            self.wf(),
        ensures
            r@ == self.spec_encode(),
            spec_decode_lua_services(r@) == Some(self@),
    {
        let mut out: Vec<u8> = Vec::new();
        out.push(self.filepath_len);
        out.extend_from_slice(self.filepath.as_slice());
        proof {
            assert(out@ =~= self.spec_encode());
            assert(lp_field(out@, 0) =~= self.filepath@);
        }
        out
    }
}

/// The commands a message id can name.
#[derive(Clone, Copy, Debug, PartialEq, Eq, Structural)]
pub enum PacketId {
    AttachService,
    DetachService,
    LuaServices,
}

impl PacketId {
    /// The wire byte of each command.
    pub open spec fn spec_code(self) -> u8 {
        match self {
            PacketId::AttachService => 1,
            PacketId::DetachService => 2,
            PacketId::LuaServices => 3,
        }
    }

    /// The wire byte of each command.
    pub fn code(self) -> (c: u8)
        ensures
            c == self.spec_code(),
    {
        match self {
            PacketId::AttachService => 1,
            PacketId::DetachService => 2,
            PacketId::LuaServices => 3,
        }
    }

    /// Resolves a message id to its command; every byte outside the three
    /// known ids is rejected.
    pub fn try_from(value: u8) -> (r: Result<PacketId, &'static str>)
        ensures
            match r {
                Ok(p) => p.spec_code() == value,
                Err(_) => value != 1 && value != 2 && value != 3,
            },
    {
        match value {
            1 => Ok(PacketId::AttachService),
            2 => Ok(PacketId::DetachService),
            3 => Ok(PacketId::LuaServices),
            _ => Err("Command can only include known values to the Command enum"),
        }
    }
}

} // verus!
