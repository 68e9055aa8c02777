//! The constructors of the standard library that the virtual machine builds by
//! itself. It has a slot for each; at the end of a compilation every slot whose module
//! was loaded is bound to a template of its constructor. The names here are the one
//! list of such constructors: where the library no longer has one of them, the slot is
//! reported, not bound to something else.
use crate::ast::StrId;
use crate::diag::{slice_of, ArenaSlice};
use crate::names::{id_of, text_of, Interner};
use crate::prelude_bindings::TypeId;
use crate::slots::entries_of;
use crate::state::{entry_of, Compiler, Interface, State, VariantInfo};
use vstd::prelude::*;
use vstd::string::*;

verus! {

broadcast use vstd::std_specs::hash::group_hash_axioms;

/// A slot of the virtual machine.
#[derive(Debug, Clone, Copy, PartialEq, Eq, Structural)]
pub enum AbiSlot {
    Unit,
    OptionSome,
    OptionNone,
    ResultOk,
    ResultErr,
    FsEnoent,
    FsEacces,
    FsEexist,
    FsEnotdir,
    FsEisdir,
    FsErofs,
    FsEloop,
    FsEnospc,
    FsEdquot,
    FsEfbig,
    FsUnalignedBinary,
    FsErrnoOther,
    IpV4,
    IpV6,
    SocketAddr,
    Socket,
    ReadData,
    ReadClosed,
    NetEtimedout,
    NetEconnrefused,
    NetEconnreset,
    NetEconnaborted,
    NetEnotconn,
    NetEpipe,
    NetEaddrinuse,
    NetEaddrnotavail,
    NetEnetdown,
    NetEnetunreach,
    NetEhostunreach,
    NetEacces,
    NetInvalidPort,
    NetUnalignedBinary,
    NetErrnoOther,
    H1Header,
    H1Http10,
    H1Http11,
    H1HeadFlags,
    H1ParsedDone,
    H1ParsedNeedMore,
    H1ParsedBad,
    H1FramingNoBody,
    H1FramingLength,
    H1FramingChunked,
    H1FramingInvalid,
    H1ChunkedDone,
    H1ChunkedNeedMore,
    H1ChunkedBad,
}

/// A module that slots are bound from.
#[derive(Debug, Clone, Copy, PartialEq, Eq, Structural)]
pub enum AbiModule {
    Prelude,
    Io,
    Address,
    Socket,
    NetError,
    Headers,
    H1,
}

/// The key of each module that slots are bound from.
#[derive(Debug, Clone, Copy, PartialEq, Eq, Structural)]
pub struct AbiKeys {
    pub prelude: StrId,
    pub io: StrId,
    pub address: StrId,
    pub socket: StrId,
    pub net_error: StrId,
    pub headers: StrId,
    pub h1: StrId,
}

/// The key of a module.
pub open spec fn key_of(keys: AbiKeys, module: AbiModule) -> StrId {
    match module {
        AbiModule::Prelude => keys.prelude,
        AbiModule::Io => keys.io,
        AbiModule::Address => keys.address,
        AbiModule::Socket => keys.socket,
        AbiModule::NetError => keys.net_error,
        AbiModule::Headers => keys.headers,
        AbiModule::H1 => keys.h1,
    }
}

impl AbiKeys {
    /// The key of a module.
    pub fn key(&self, module: AbiModule) -> (res: StrId)
        ensures
            res == key_of(*self, module),
    {
        match module {
            AbiModule::Prelude => self.prelude,
            AbiModule::Io => self.io,
            AbiModule::Address => self.address,
            AbiModule::Socket => self.socket,
            AbiModule::NetError => self.net_error,
            AbiModule::Headers => self.headers,
            AbiModule::H1 => self.h1,
        }
    }
}

/// The slots in the order in which they are bound.
pub open spec fn all_slots() -> Seq<AbiSlot> {
    seq![
        AbiSlot::Unit,
        AbiSlot::OptionSome,
        AbiSlot::OptionNone,
        AbiSlot::ResultOk,
        AbiSlot::ResultErr,
        AbiSlot::FsEnoent,
        AbiSlot::FsEacces,
        AbiSlot::FsEexist,
        AbiSlot::FsEnotdir,
        AbiSlot::FsEisdir,
        AbiSlot::FsErofs,
        AbiSlot::FsEloop,
        AbiSlot::FsEnospc,
        AbiSlot::FsEdquot,
        AbiSlot::FsEfbig,
        AbiSlot::FsUnalignedBinary,
        AbiSlot::FsErrnoOther,
        AbiSlot::IpV4,
        AbiSlot::IpV6,
        AbiSlot::SocketAddr,
        AbiSlot::Socket,
        AbiSlot::ReadData,
        AbiSlot::ReadClosed,
        AbiSlot::NetEtimedout,
        AbiSlot::NetEconnrefused,
        AbiSlot::NetEconnreset,
        AbiSlot::NetEconnaborted,
        AbiSlot::NetEnotconn,
        AbiSlot::NetEpipe,
        AbiSlot::NetEaddrinuse,
        AbiSlot::NetEaddrnotavail,
        AbiSlot::NetEnetdown,
        AbiSlot::NetEnetunreach,
        AbiSlot::NetEhostunreach,
        AbiSlot::NetEacces,
        AbiSlot::NetInvalidPort,
        AbiSlot::NetUnalignedBinary,
        AbiSlot::NetErrnoOther,
        AbiSlot::H1Header,
        AbiSlot::H1Http10,
        AbiSlot::H1Http11,
        AbiSlot::H1HeadFlags,
        AbiSlot::H1ParsedDone,
        AbiSlot::H1ParsedNeedMore,
        AbiSlot::H1ParsedBad,
        AbiSlot::H1FramingNoBody,
        AbiSlot::H1FramingLength,
        AbiSlot::H1FramingChunked,
        AbiSlot::H1FramingInvalid,
        AbiSlot::H1ChunkedDone,
        AbiSlot::H1ChunkedNeedMore,
        AbiSlot::H1ChunkedBad,
    ]
}

/// The slots in the order in which they are bound.
pub fn slots() -> (res: Vec<AbiSlot>)
    ensures
        res@ == all_slots(),
{
    vec![
        AbiSlot::Unit,
        AbiSlot::OptionSome,
        AbiSlot::OptionNone,
        AbiSlot::ResultOk,
        AbiSlot::ResultErr,
        AbiSlot::FsEnoent,
        AbiSlot::FsEacces,
        AbiSlot::FsEexist,
        AbiSlot::FsEnotdir,
        AbiSlot::FsEisdir,
        AbiSlot::FsErofs,
        AbiSlot::FsEloop,
        AbiSlot::FsEnospc,
        AbiSlot::FsEdquot,
        AbiSlot::FsEfbig,
        AbiSlot::FsUnalignedBinary,
        AbiSlot::FsErrnoOther,
        AbiSlot::IpV4,
        AbiSlot::IpV6,
        AbiSlot::SocketAddr,
        AbiSlot::Socket,
        AbiSlot::ReadData,
        AbiSlot::ReadClosed,
        AbiSlot::NetEtimedout,
        AbiSlot::NetEconnrefused,
        AbiSlot::NetEconnreset,
        AbiSlot::NetEconnaborted,
        AbiSlot::NetEnotconn,
        AbiSlot::NetEpipe,
        AbiSlot::NetEaddrinuse,
        AbiSlot::NetEaddrnotavail,
        AbiSlot::NetEnetdown,
        AbiSlot::NetEnetunreach,
        AbiSlot::NetEhostunreach,
        AbiSlot::NetEacces,
        AbiSlot::NetInvalidPort,
        AbiSlot::NetUnalignedBinary,
        AbiSlot::NetErrnoOther,
        AbiSlot::H1Header,
        AbiSlot::H1Http10,
        AbiSlot::H1Http11,
        AbiSlot::H1HeadFlags,
        AbiSlot::H1ParsedDone,
        AbiSlot::H1ParsedNeedMore,
        AbiSlot::H1ParsedBad,
        AbiSlot::H1FramingNoBody,
        AbiSlot::H1FramingLength,
        AbiSlot::H1FramingChunked,
        AbiSlot::H1FramingInvalid,
        AbiSlot::H1ChunkedDone,
        AbiSlot::H1ChunkedNeedMore,
        AbiSlot::H1ChunkedBad,
    ]
}

/// The module that declares the constructor of a slot.
pub open spec fn module_of(slot: AbiSlot) -> AbiModule {
    match slot {
        AbiSlot::Unit | AbiSlot::OptionSome | AbiSlot::OptionNone | AbiSlot::ResultOk
        | AbiSlot::ResultErr => AbiModule::Prelude,
        AbiSlot::FsEnoent | AbiSlot::FsEacces | AbiSlot::FsEexist | AbiSlot::FsEnotdir
        | AbiSlot::FsEisdir | AbiSlot::FsErofs | AbiSlot::FsEloop | AbiSlot::FsEnospc
        | AbiSlot::FsEdquot | AbiSlot::FsEfbig | AbiSlot::FsUnalignedBinary
        | AbiSlot::FsErrnoOther => AbiModule::Io,
        AbiSlot::IpV4 | AbiSlot::IpV6 | AbiSlot::SocketAddr => AbiModule::Address,
        AbiSlot::Socket | AbiSlot::ReadData | AbiSlot::ReadClosed => AbiModule::Socket,
        AbiSlot::NetEtimedout | AbiSlot::NetEconnrefused | AbiSlot::NetEconnreset
        | AbiSlot::NetEconnaborted | AbiSlot::NetEnotconn | AbiSlot::NetEpipe
        | AbiSlot::NetEaddrinuse | AbiSlot::NetEaddrnotavail | AbiSlot::NetEnetdown
        | AbiSlot::NetEnetunreach | AbiSlot::NetEhostunreach | AbiSlot::NetEacces
        | AbiSlot::NetInvalidPort | AbiSlot::NetUnalignedBinary | AbiSlot::NetErrnoOther => AbiModule::NetError,
        AbiSlot::H1Header => AbiModule::Headers,
        AbiSlot::H1Http10 | AbiSlot::H1Http11 | AbiSlot::H1HeadFlags | AbiSlot::H1ParsedDone
        | AbiSlot::H1ParsedNeedMore | AbiSlot::H1ParsedBad | AbiSlot::H1FramingNoBody
        | AbiSlot::H1FramingLength | AbiSlot::H1FramingChunked | AbiSlot::H1FramingInvalid
        | AbiSlot::H1ChunkedDone | AbiSlot::H1ChunkedNeedMore | AbiSlot::H1ChunkedBad => AbiModule::H1,
    }
}

/// The type whose constructor a slot is for.
pub open spec fn type_text(slot: AbiSlot) -> Seq<char> {
    match slot {
        AbiSlot::Unit => "Nil"@,
        AbiSlot::OptionSome | AbiSlot::OptionNone => "Option"@,
        AbiSlot::ResultOk | AbiSlot::ResultErr => "Result"@,
        AbiSlot::FsEnoent | AbiSlot::FsEacces | AbiSlot::FsEexist | AbiSlot::FsEnotdir
        | AbiSlot::FsEisdir | AbiSlot::FsErofs | AbiSlot::FsEloop | AbiSlot::FsEnospc
        | AbiSlot::FsEdquot | AbiSlot::FsEfbig | AbiSlot::FsUnalignedBinary
        | AbiSlot::FsErrnoOther => "IoError"@,
        AbiSlot::IpV4 | AbiSlot::IpV6 => "IpAddress"@,
        AbiSlot::SocketAddr => "SocketAddress"@,
        AbiSlot::Socket => "Socket"@,
        AbiSlot::ReadData | AbiSlot::ReadClosed => "Read"@,
        AbiSlot::NetEtimedout | AbiSlot::NetEconnrefused | AbiSlot::NetEconnreset
        | AbiSlot::NetEconnaborted | AbiSlot::NetEnotconn | AbiSlot::NetEpipe
        | AbiSlot::NetEaddrinuse | AbiSlot::NetEaddrnotavail | AbiSlot::NetEnetdown
        | AbiSlot::NetEnetunreach | AbiSlot::NetEhostunreach | AbiSlot::NetEacces
        | AbiSlot::NetInvalidPort | AbiSlot::NetUnalignedBinary | AbiSlot::NetErrnoOther => "NetError"@,
        AbiSlot::H1Header => "Header"@,
        AbiSlot::H1Http10 | AbiSlot::H1Http11 => "Version"@,
        AbiSlot::H1HeadFlags => "HeadFlags"@,
        AbiSlot::H1ParsedDone | AbiSlot::H1ParsedNeedMore | AbiSlot::H1ParsedBad => "Parsed"@,
        AbiSlot::H1FramingNoBody | AbiSlot::H1FramingLength | AbiSlot::H1FramingChunked
        | AbiSlot::H1FramingInvalid => "Framing"@,
        AbiSlot::H1ChunkedDone | AbiSlot::H1ChunkedNeedMore | AbiSlot::H1ChunkedBad => "ChunkBody"@,
    }
}

/// The constructor that a slot is for.
pub open spec fn ctor_text(slot: AbiSlot) -> Seq<char> {
    match slot {
        AbiSlot::Unit => "Nil"@,
        AbiSlot::OptionSome => "Some"@,
        AbiSlot::OptionNone => "None"@,
        AbiSlot::ResultOk => "Ok"@,
        AbiSlot::ResultErr => "Err"@,
        AbiSlot::FsEnoent => "NotFound"@,
        AbiSlot::FsEacces | AbiSlot::NetEacces => "PermissionDenied"@,
        AbiSlot::FsEexist => "AlreadyExists"@,
        AbiSlot::FsEnotdir => "NotADirectory"@,
        AbiSlot::FsEisdir => "IsADirectory"@,
        AbiSlot::FsErofs => "ReadOnlyFilesystem"@,
        AbiSlot::FsEloop => "FilesystemLoop"@,
        AbiSlot::FsEnospc => "StorageFull"@,
        AbiSlot::FsEdquot => "QuotaExceeded"@,
        AbiSlot::FsEfbig => "FileTooLarge"@,
        AbiSlot::FsUnalignedBinary | AbiSlot::NetUnalignedBinary => "UnalignedBinary"@,
        AbiSlot::FsErrnoOther | AbiSlot::NetErrnoOther => "Errno"@,
        AbiSlot::IpV4 => "V4"@,
        AbiSlot::IpV6 => "V6"@,
        AbiSlot::SocketAddr => "SocketAddress"@,
        AbiSlot::Socket => "Socket"@,
        AbiSlot::ReadData => "Data"@,
        AbiSlot::ReadClosed => "Closed"@,
        AbiSlot::NetEtimedout => "TimedOut"@,
        AbiSlot::NetEconnrefused => "ConnectionRefused"@,
        AbiSlot::NetEconnreset => "ConnectionReset"@,
        AbiSlot::NetEconnaborted => "ConnectionAborted"@,
        AbiSlot::NetEnotconn => "NotConnected"@,
        AbiSlot::NetEpipe => "BrokenPipe"@,
        AbiSlot::NetEaddrinuse => "AddrInUse"@,
        AbiSlot::NetEaddrnotavail => "AddrNotAvailable"@,
        AbiSlot::NetEnetdown => "NetworkDown"@,
        AbiSlot::NetEnetunreach => "NetworkUnreachable"@,
        AbiSlot::NetEhostunreach => "HostUnreachable"@,
        AbiSlot::NetInvalidPort => "InvalidPort"@,
        AbiSlot::H1Header => "Header"@,
        AbiSlot::H1Http10 => "Http10"@,
        AbiSlot::H1Http11 => "Http11"@,
        AbiSlot::H1HeadFlags => "HeadFlags"@,
        AbiSlot::H1ParsedDone => "Done"@,
        AbiSlot::H1ParsedNeedMore => "NeedMore"@,
        AbiSlot::H1ParsedBad => "Bad"@,
        AbiSlot::H1FramingNoBody => "NoBody"@,
        AbiSlot::H1FramingLength => "Length"@,
        AbiSlot::H1FramingChunked => "Chunked"@,
        AbiSlot::H1FramingInvalid => "Invalid"@,
        AbiSlot::H1ChunkedDone => "ChunkedDone"@,
        AbiSlot::H1ChunkedNeedMore => "ChunkedNeedMore"@,
        AbiSlot::H1ChunkedBad => "ChunkedBad"@,
    }
}

impl AbiSlot {
    /// The module that declares the slot's constructor.
    pub fn module(self) -> (res: AbiModule)
        ensures
            res == module_of(self),
    {
        match self {
            AbiSlot::Unit | AbiSlot::OptionSome | AbiSlot::OptionNone | AbiSlot::ResultOk
            | AbiSlot::ResultErr => AbiModule::Prelude,
            AbiSlot::FsEnoent | AbiSlot::FsEacces | AbiSlot::FsEexist | AbiSlot::FsEnotdir
            | AbiSlot::FsEisdir | AbiSlot::FsErofs | AbiSlot::FsEloop | AbiSlot::FsEnospc
            | AbiSlot::FsEdquot | AbiSlot::FsEfbig | AbiSlot::FsUnalignedBinary
            | AbiSlot::FsErrnoOther => AbiModule::Io,
            AbiSlot::IpV4 | AbiSlot::IpV6 | AbiSlot::SocketAddr => AbiModule::Address,
            AbiSlot::Socket | AbiSlot::ReadData | AbiSlot::ReadClosed => AbiModule::Socket,
            AbiSlot::NetEtimedout | AbiSlot::NetEconnrefused | AbiSlot::NetEconnreset
            | AbiSlot::NetEconnaborted | AbiSlot::NetEnotconn | AbiSlot::NetEpipe
            | AbiSlot::NetEaddrinuse | AbiSlot::NetEaddrnotavail | AbiSlot::NetEnetdown
            | AbiSlot::NetEnetunreach | AbiSlot::NetEhostunreach | AbiSlot::NetEacces
            | AbiSlot::NetInvalidPort | AbiSlot::NetUnalignedBinary | AbiSlot::NetErrnoOther => AbiModule::NetError,
            AbiSlot::H1Header => AbiModule::Headers,
            AbiSlot::H1Http10 | AbiSlot::H1Http11 | AbiSlot::H1HeadFlags
            | AbiSlot::H1ParsedDone | AbiSlot::H1ParsedNeedMore | AbiSlot::H1ParsedBad
            | AbiSlot::H1FramingNoBody | AbiSlot::H1FramingLength
            | AbiSlot::H1FramingChunked | AbiSlot::H1FramingInvalid | AbiSlot::H1ChunkedDone
            | AbiSlot::H1ChunkedNeedMore | AbiSlot::H1ChunkedBad => AbiModule::H1,
        }
    }

    /// The type whose constructor the slot is for.
    pub fn type_text(self) -> (res: &'static str)
        ensures
            res@ == type_text(self),
    {
        match self {
            AbiSlot::Unit => "Nil",
            AbiSlot::OptionSome | AbiSlot::OptionNone => "Option",
            AbiSlot::ResultOk | AbiSlot::ResultErr => "Result",
            AbiSlot::FsEnoent | AbiSlot::FsEacces | AbiSlot::FsEexist | AbiSlot::FsEnotdir
            | AbiSlot::FsEisdir | AbiSlot::FsErofs | AbiSlot::FsEloop | AbiSlot::FsEnospc
            | AbiSlot::FsEdquot | AbiSlot::FsEfbig | AbiSlot::FsUnalignedBinary
            | AbiSlot::FsErrnoOther => "IoError",
            AbiSlot::IpV4 | AbiSlot::IpV6 => "IpAddress",
            AbiSlot::SocketAddr => "SocketAddress",
            AbiSlot::Socket => "Socket",
            AbiSlot::ReadData | AbiSlot::ReadClosed => "Read",
            AbiSlot::NetEtimedout | AbiSlot::NetEconnrefused | AbiSlot::NetEconnreset
            | AbiSlot::NetEconnaborted | AbiSlot::NetEnotconn | AbiSlot::NetEpipe
            | AbiSlot::NetEaddrinuse | AbiSlot::NetEaddrnotavail | AbiSlot::NetEnetdown
            | AbiSlot::NetEnetunreach | AbiSlot::NetEhostunreach | AbiSlot::NetEacces
            | AbiSlot::NetInvalidPort | AbiSlot::NetUnalignedBinary | AbiSlot::NetErrnoOther => "NetError",
            AbiSlot::H1Header => "Header",
            AbiSlot::H1Http10 | AbiSlot::H1Http11 => "Version",
            AbiSlot::H1HeadFlags => "HeadFlags",
            AbiSlot::H1ParsedDone | AbiSlot::H1ParsedNeedMore | AbiSlot::H1ParsedBad => "Parsed",
            AbiSlot::H1FramingNoBody | AbiSlot::H1FramingLength | AbiSlot::H1FramingChunked
            | AbiSlot::H1FramingInvalid => "Framing",
            AbiSlot::H1ChunkedDone | AbiSlot::H1ChunkedNeedMore | AbiSlot::H1ChunkedBad => "ChunkBody",
        }
    }

    /// The constructor that the slot is for.
    pub fn ctor_text(self) -> (res: &'static str)
        ensures
            res@ == ctor_text(self),
    {
        match self {
            AbiSlot::Unit => "Nil",
            AbiSlot::OptionSome => "Some",
            AbiSlot::OptionNone => "None",
            AbiSlot::ResultOk => "Ok",
            AbiSlot::ResultErr => "Err",
            AbiSlot::FsEnoent => "NotFound",
            AbiSlot::FsEacces | AbiSlot::NetEacces => "PermissionDenied",
            AbiSlot::FsEexist => "AlreadyExists",
            AbiSlot::FsEnotdir => "NotADirectory",
            AbiSlot::FsEisdir => "IsADirectory",
            AbiSlot::FsErofs => "ReadOnlyFilesystem",
            AbiSlot::FsEloop => "FilesystemLoop",
            AbiSlot::FsEnospc => "StorageFull",
            AbiSlot::FsEdquot => "QuotaExceeded",
            AbiSlot::FsEfbig => "FileTooLarge",
            AbiSlot::FsUnalignedBinary | AbiSlot::NetUnalignedBinary => "UnalignedBinary",
            AbiSlot::FsErrnoOther | AbiSlot::NetErrnoOther => "Errno",
            AbiSlot::IpV4 => "V4",
            AbiSlot::IpV6 => "V6",
            AbiSlot::SocketAddr => "SocketAddress",
            AbiSlot::Socket => "Socket",
            AbiSlot::ReadData => "Data",
            AbiSlot::ReadClosed => "Closed",
            AbiSlot::NetEtimedout => "TimedOut",
            AbiSlot::NetEconnrefused => "ConnectionRefused",
            AbiSlot::NetEconnreset => "ConnectionReset",
            AbiSlot::NetEconnaborted => "ConnectionAborted",
            AbiSlot::NetEnotconn => "NotConnected",
            AbiSlot::NetEpipe => "BrokenPipe",
            AbiSlot::NetEaddrinuse => "AddrInUse",
            AbiSlot::NetEaddrnotavail => "AddrNotAvailable",
            AbiSlot::NetEnetdown => "NetworkDown",
            AbiSlot::NetEnetunreach => "NetworkUnreachable",
            AbiSlot::NetEhostunreach => "HostUnreachable",
            AbiSlot::NetInvalidPort => "InvalidPort",
            AbiSlot::H1Header => "Header",
            AbiSlot::H1Http10 => "Http10",
            AbiSlot::H1Http11 => "Http11",
            AbiSlot::H1HeadFlags => "HeadFlags",
            AbiSlot::H1ParsedDone => "Done",
            AbiSlot::H1ParsedNeedMore => "NeedMore",
            AbiSlot::H1ParsedBad => "Bad",
            AbiSlot::H1FramingNoBody => "NoBody",
            AbiSlot::H1FramingLength => "Length",
            AbiSlot::H1FramingChunked => "Chunked",
            AbiSlot::H1FramingInvalid => "Invalid",
            AbiSlot::H1ChunkedDone => "ChunkedDone",
            AbiSlot::H1ChunkedNeedMore => "ChunkedNeedMore",
            AbiSlot::H1ChunkedBad => "ChunkedBad",
        }
    }
}

/// A constructor as the virtual machine builds it: its type, its place among the type's
/// constructors, and the names to print it with.
#[derive(Debug)]
pub struct Template {
    pub type_id: TypeId,
    pub variant_idx: u16,
    pub ty: StrId,
    pub ctor: StrId,
    pub labels: Vec<StrId>,
}

/// The mathematical model of a [`Template`].
pub struct TemplateView {
    pub type_id: TypeId,
    pub variant_idx: u16,
    pub ty: StrId,
    pub ctor: StrId,
    pub labels: Seq<StrId>,
}

impl View for Template {
    type V = TemplateView;

    open spec fn view(&self) -> TemplateView {
        TemplateView {
            type_id: self.type_id,
            variant_idx: self.variant_idx,
            ty: self.ty,
            ctor: self.ctor,
            labels: self.labels@,
        }
    }
}

/// How a module differs from what a slot expects.
#[derive(Debug, Clone, Copy, PartialEq, Eq, Structural)]
pub enum Drift {
    NoType,
    NoVariants,
    NoConstructor,
    Arity,
}

/// A difference in words.
pub open spec fn drift_text(what: Drift) -> Seq<char> {
    match what {
        Drift::NoType => "type not found"@,
        Drift::NoVariants => "type has no constructors"@,
        Drift::NoConstructor => "constructor not found"@,
        Drift::Arity => "constructor arity changed"@,
    }
}

impl Drift {
    /// The difference in words.
    pub fn text(self) -> (res: &'static str)
        ensures
            res@ == drift_text(self),
    {
        match self {
            Drift::NoType => "type not found",
            Drift::NoVariants => "type has no constructors",
            Drift::NoConstructor => "constructor not found",
            Drift::Arity => "constructor arity changed",
        }
    }
}

/// What became of a slot: its module was not loaded, or it was but differs, or the slot
/// is bound.
pub enum Outcome {
    Absent,
    Drifted(Drift),
    Bound(TemplateView),
}

/// The first constructor of a name from `i` on.
pub open spec fn variant_named(
    names: Seq<Seq<char>>,
    variants: Seq<VariantInfo>,
    i: nat,
    text: Seq<char>,
) -> Option<nat>
    decreases variants.len() - i,
{
    if i >= variants.len() {
        None
    } else if text_of(names, variants[i as int].name) == text {
        Some(i)
    } else {
        variant_named(names, variants, i + 1, text)
    }
}

/// What becomes of a slot whose type is known.
pub open spec fn outcome_of_type(
    s: State,
    slot: AbiSlot,
    arity: usize,
    ty: StrId,
    id: TypeId,
) -> Outcome {
    match variants_of(s, id) {
        None => Outcome::Drifted(Drift::NoVariants),
        Some(sl) => {
            let variants = slice_of(s.known.variants, sl);
            match variant_named(s.world.names@, variants, 0, ctor_text(slot)) {
                None => Outcome::Drifted(Drift::NoConstructor),
                Some(i) => {
                    let v = variants[i as int];
                    if slice_of(s.labels, v.labels).len() != arity {
                        Outcome::Drifted(Drift::Arity)
                    } else {
                        Outcome::Bound(
                            TemplateView {
                                type_id: id,
                                variant_idx: i as u16,
                                ty,
                                ctor: v.name,
                                labels: slice_of(s.labels, v.labels),
                            },
                        )
                    }
                },
            }
        },
    }
}

/// Where the constructors of a type stand, if it has any.
pub open spec fn variants_of(s: State, id: TypeId) -> Option<ArenaSlice> {
    if s.known.infos.dom().contains(id.0) {
        s.known.infos[id.0].variants
    } else {
        None
    }
}

/// The type that a module exports under a text.
pub open spec fn exported_type(
    names: Seq<Seq<char>>,
    iface: Interface,
    text: Seq<char>,
) -> Option<(StrId, TypeId)> {
    match id_of(names, 0, text) {
        None => None,
        Some(ty) => if iface.types.dom().contains(ty) {
            Some((ty, iface.types[ty]))
        } else {
            None
        },
    }
}

/// What becomes of a slot whose constructor takes `arity` fields.
pub open spec fn outcome(s: State, keys: AbiKeys, slot: AbiSlot, arity: usize) -> Outcome {
    match entry_of(s.known.modules, key_of(keys, module_of(slot))) {
        None => Outcome::Absent,
        Some(iface) => match exported_type(s.world.names@, iface, type_text(slot)) {
            None => Outcome::Drifted(Drift::NoType),
            Some((ty, id)) => outcome_of_type(s, slot, arity, ty, id),
        },
    }
}

/// The mathematical model of an [`AbiTable`].
pub struct AbiView {
    pub bound: Seq<AbiSlot>,
    pub templates: Seq<TemplateView>,
    pub drifts: Seq<(AbiSlot, Drift)>,
    pub missing: Seq<AbiSlot>,
}

/// The slots that are bound, each to the template at its own place; those whose modules
/// differ; and those that the program needs and that are not bound.
#[derive(Debug)]
pub struct AbiTable {
    pub bound: Vec<AbiSlot>,
    pub templates: Vec<Template>,
    pub drifts: Vec<(AbiSlot, Drift)>,
    pub missing: Vec<AbiSlot>,
}

impl View for AbiTable {
    type V = AbiView;

    open spec fn view(&self) -> AbiView {
        AbiView {
            bound: self.bound@,
            templates: self.templates@.map_values(|t: Template| t@),
            drifts: self.drifts@,
            missing: self.missing@,
        }
    }
}

/// The table of the first `n` slots.
pub open spec fn table_of(s: State, keys: AbiKeys, arities: Seq<usize>, n: nat) -> AbiView
    decreases n,
{
    if n == 0 {
        AbiView {
            bound: Seq::empty(),
            templates: Seq::empty(),
            drifts: Seq::empty(),
            missing: Seq::empty(),
        }
    } else {
        let before = table_of(s, keys, arities, (n - 1) as nat);
        let slot = all_slots()[n - 1];
        match outcome(s, keys, slot, arities[n - 1]) {
            Outcome::Absent => before,
            Outcome::Drifted(what) => AbiView { drifts: before.drifts.push((slot, what)), ..before },
            Outcome::Bound(t) => AbiView {
                bound: before.bound.push(slot),
                templates: before.templates.push(t),
                ..before
            },
        }
    }
}

/// Which of the first `n` slots of a list are not bound.
pub open spec fn unbound(bound: Seq<AbiSlot>, needed: Seq<AbiSlot>, n: nat) -> Seq<AbiSlot>
    decreases n,
{
    if n == 0 {
        Seq::empty()
    } else if bound.contains(needed[n - 1]) {
        unbound(bound, needed, (n - 1) as nat)
    } else {
        unbound(bound, needed, (n - 1) as nat).push(needed[n - 1])
    }
}

/// The whole table of a program that needs some slots.
pub open spec fn abi_of(
    s: State,
    keys: AbiKeys,
    arities: Seq<usize>,
    needed: Seq<AbiSlot>,
) -> AbiView {
    let table = table_of(s, keys, arities, all_slots().len());
    AbiView { missing: unbound(table.bound, needed, needed.len()), ..table }
}

fn find_variant(names: &Interner, variants: &Vec<VariantInfo>, text: &str) -> (res: Option<usize>)
    ensures
        match res {
            Some(i) => i < variants.len() && variant_named(names@, variants@, 0, text@) == Some(
                i as nat,
            ),
            None => variant_named(names@, variants@, 0, text@) is None,
        },
{
    let mut i: usize = 0;
    while i < variants.len()
        invariant
            i <= variants.len(),
            variant_named(names@, variants@, 0, text@) == variant_named(
                names@,
                variants@,
                i as nat,
                text@,
            ),
        decreases variants.len() - i,
    {
        if names.is(variants[i].name, text) {
            return Some(i);
        }
        i = i + 1;
    }
    None
}

fn is_bound(bound: &Vec<AbiSlot>, slot: AbiSlot) -> (res: bool)
    ensures
        res == bound@.contains(slot),
{
    let mut i: usize = 0;
    while i < bound.len()
        invariant
            i <= bound.len(),
            forall|k: int| 0 <= k < i ==> bound@[k] != slot,
        decreases bound.len() - i,
    {
        if bound[i] == slot {
            return true;
        }
        i = i + 1;
    }
    false
}

impl AbiTable {
    /// The template that a slot is bound to.
    pub fn template_of(&self, slot: AbiSlot) -> (res: Option<usize>)
        ensures
            match res {
                Some(i) => i < self@.bound.len() && self@.bound[i as int] == slot,
                None => !self@.bound.contains(slot),
            },
    {
        let mut i: usize = 0;
        while i < self.bound.len()
            invariant
                i <= self.bound.len(),
                forall|k: int| 0 <= k < i ==> self.bound@[k] != slot,
            decreases self.bound.len() - i,
        {
            if self.bound[i] == slot {
                return Some(i);
            }
            i = i + 1;
        }
        None
    }
}

impl Compiler {
    /// The template for a slot whose type is known.
    fn template_in(&self, slot: AbiSlot, arity: usize, ty: StrId, id: TypeId) -> (res: Result<
        Template,
        Drift,
    >)
        ensures
            match res {
                Ok(t) => outcome_of_type(self@, slot, arity, ty, id) == Outcome::Bound(t@),
                Err(d) => outcome_of_type(self@, slot, arity, ty, id) == Outcome::Drifted(d),
            },
    {
        proof {
            reveal(Compiler::model);
        }
        let sl: ArenaSlice = match self.infos.get(&id.0) {
            None => {
                return Err(Drift::NoVariants);
            },
            Some(info) => match info.variants {
                None => {
                    return Err(Drift::NoVariants);
                },
                Some(sl) => sl,
            },
        };
        let variants: Vec<VariantInfo> = entries_of(&self.variants, sl);
        match find_variant(&self.world.names, &variants, slot.ctor_text()) {
            None => Err(Drift::NoConstructor),
            Some(i) => {
                let v: VariantInfo = variants[i];
                let labels: Vec<StrId> = entries_of(&self.labels, v.labels);
                if labels.len() != arity {
                    Err(Drift::Arity)
                } else {
                    Ok(
                        Template {
                            type_id: id,
                            variant_idx: #[verifier::truncate] (i as u16),
                            ty,
                            ctor: v.name,
                            labels,
                        },
                    )
                }
            },
        }
    }

    /// The type that a loaded module exports for a slot; nothing where the module is
    /// not loaded.
    fn exported_for(&self, key: StrId, slot: AbiSlot) -> (res: Option<Option<(StrId, TypeId)>>)
        ensures
            res == (match entry_of(self@.known.modules, key) {
                None => None,
                Some(iface) => Some(
                    exported_type(self@.world.names@, iface, type_text(slot)),
                ),
            }),
    {
        proof {
            reveal(Compiler::model);
        }
        match self.modules.get(&key) {
            None => None,
            Some(iface) => match self.world.names.find(slot.type_text()) {
                None => Some(None),
                Some(ty) => match iface.types.get(&ty) {
                    None => Some(None),
                    Some(id) => Some(Some((ty, *id))),
                },
            },
        }
    }

    /// Bind every slot whose module is loaded, in their order. `arities` says how many
    /// fields the machine gives each slot's constructor, and `needed` which slots the
    /// emitted code builds; those of them that are not bound are missing.
    pub fn bind_abi(&self, keys: AbiKeys, arities: &Vec<usize>, needed: &Vec<AbiSlot>) -> (res:
        AbiTable)
        requires
            arities@.len() == all_slots().len(),
        ensures
            res@ == abi_of(self@, keys, arities@, needed@),
    {
        let order: Vec<AbiSlot> = slots();
        let mut table: AbiTable = AbiTable {
            bound: Vec::new(),
            templates: Vec::new(),
            drifts: Vec::new(),
            missing: Vec::new(),
        };
        assert(table@.templates =~= Seq::<TemplateView>::empty());
        let mut n: usize = 0;
        while n < order.len()
            invariant
                n <= order.len(),
                order@ == all_slots(),
                arities@.len() == order@.len(),
                table@ == table_of(self@, keys, arities@, n as nat),
                table@.missing == Seq::<AbiSlot>::empty(),
            decreases order.len() - n,
        {
            let slot: AbiSlot = order[n];
            let ghost before = table@;
            match self.exported_for(keys.key(slot.module()), slot) {
                None => {},
                Some(None) => table.drifts.push((slot, Drift::NoType)),
                Some(Some((ty, id))) => match self.template_in(slot, arities[n], ty, id) {
                    Err(what) => table.drifts.push((slot, what)),
                    Ok(t) => {
                        let ghost view = t@;
                        table.bound.push(slot);
                        table.templates.push(t);
                        assert(table@.templates =~= before.templates.push(view));
                    },
                },
            }
            n = n + 1;
        }
        let mut k: usize = 0;
        let ghost whole = table@;
        while k < needed.len()
            invariant
                k <= needed.len(),
                table@ == (AbiView {
                    missing: unbound(whole.bound, needed@, k as nat),
                    ..whole
                }),
            decreases needed.len() - k,
        {
            if !is_bound(&table.bound, needed[k]) {
                table.missing.push(needed[k]);
            }
            k = k + 1;
        }
        table
    }
}

/// What is said of a slot whose module differs.
pub open spec fn drift_wording(name: Seq<char>, slot: AbiSlot, what: Drift) -> Seq<char> {
    "internal: ABI slot "@ + name + " binds "@ + type_text(slot) + "."@ + ctor_text(slot)
        + ", but "@ + drift_text(what)
        + " \u{2014} the stdlib no longer matches the compiler's ABI registry"@
}

/// What is said of a slot whose module differs; the machine knows the slot by `name`.
pub fn abi_drift(name: &str, slot: AbiSlot, what: Drift) -> (res: String)
    ensures
        res@ == drift_wording(name@, slot, what),
{
    String::from_str("internal: ABI slot ").concat(name).concat(" binds ").concat(
        slot.type_text(),
    ).concat(".").concat(slot.ctor_text()).concat(", but ").concat(what.text()).concat(
        " \u{2014} the stdlib no longer matches the compiler's ABI registry",
    )
}

/// The texts of the first `n` names, with commas between them.
pub open spec fn listed(names: Seq<String>, n: nat) -> Seq<char>
    decreases n,
{
    if n == 0 {
        Seq::empty()
    } else if n == 1 {
        names[0]@
    } else {
        listed(names, (n - 1) as nat) + ", "@ + names[n - 1]@
    }
}

/// What is said of the missing slots; `names` are those that the machine knows them by.
pub fn abi_missing(names: &Vec<String>) -> (res: String)
    requires
        names@.len() > 0,
    ensures
        res@ == "internal: emitted ops construct unbound ABI slots: "@ + listed(
            names@,
            names@.len(),
        ),
{
    let mut list: String = String::from_str(names[0].as_str());
    let mut i: usize = 1;
    while i < names.len()
        invariant
            1 <= i <= names.len(),
            list@ == listed(names@, i as nat),
        decreases names.len() - i,
    {
        list = list.concat(", ").concat(names[i].as_str());
        i = i + 1;
    }
    String::from_str("internal: emitted ops construct unbound ABI slots: ").concat(list.as_str())
}

// ---- laws --------------------------------------------------------------------

/// A slot that is bound is one whose module is loaded and has the constructor with the
/// fields that the machine gives it, and that constructor is its template.
pub proof fn law_bound_slots(s: State, keys: AbiKeys, arities: Seq<usize>, n: nat, i: int)
    requires
        n <= all_slots().len(),
        0 <= i < table_of(s, keys, arities, n).bound.len(),
    ensures
        table_of(s, keys, arities, n).bound.len() == table_of(s, keys, arities, n).templates.len(),
        exists|k: int|
            0 <= k < n && #[trigger] all_slots()[k] == table_of(s, keys, arities, n).bound[i]
                && outcome(s, keys, all_slots()[k], arities[k]) == Outcome::Bound(
                table_of(s, keys, arities, n).templates[i],
            ),
    decreases n,
{
    lemma_lengths(s, keys, arities, n);
    lemma_lengths(s, keys, arities, (n - 1) as nat);
    let before = table_of(s, keys, arities, (n - 1) as nat);
    if i < before.bound.len() {
        law_bound_slots(s, keys, arities, (n - 1) as nat, i);
    } else {
        assert(all_slots()[n - 1] == table_of(s, keys, arities, n).bound[i]);
    }
}

proof fn lemma_lengths(s: State, keys: AbiKeys, arities: Seq<usize>, n: nat)
    ensures
        table_of(s, keys, arities, n).bound.len() == table_of(s, keys, arities, n).templates.len(),
    decreases n,
{
    if n > 0 {
        lemma_lengths(s, keys, arities, (n - 1) as nat);
    }
}

/// A slot that is needed is reported exactly when it is not bound.
pub proof fn law_missing_slots(bound: Seq<AbiSlot>, needed: Seq<AbiSlot>, n: nat, slot: AbiSlot)
    requires
        n <= needed.len(),
    ensures
        unbound(bound, needed, n).contains(slot) <==> needed.take(n as int).contains(slot)
            && !bound.contains(slot),
    decreases n,
{
    if n > 0 {
        law_missing_slots(bound, needed, (n - 1) as nat, slot);
        let before = unbound(bound, needed, (n - 1) as nat);
        assert(needed.take(n as int) =~= needed.take(n - 1).push(needed[n - 1]));
        assert(needed.take(n as int)[n - 1] == needed[n - 1]);
        assert forall|x: AbiSlot| needed.take(n - 1).contains(x) implies needed.take(
            n as int,
        ).contains(x) by {
            let k = needed.take(n - 1).index_of(x);
            assert(needed.take(n as int)[k] == x);
        }
        if before.contains(slot) {
            let k = before.index_of(slot);
            assert(before.push(needed[n - 1])[k] == slot);
        }
        assert(before.push(needed[n - 1])[before.len() as int] == needed[n - 1]);
    }
}

} // verus!
