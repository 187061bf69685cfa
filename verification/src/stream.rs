//! Stream management for ADB connections.
//!
//! ADB multiplexes multiple independent conversations over a single USB connection. Each
//! conversation is a "stream", identified by a pair of u32 IDs: one chosen by each side
//! (`local_id` and `remote_id`).
//!
//! The host opens a stream by sending OPEN with a service name (e.g. "sync:", "shell:ls"). The
//! device allocates a `local_id`, creates the appropriate service handler, and responds with
//! OKAY. All subsequent WRTE/OKAY/CLSE messages on that stream carry both IDs so payloads can be
//! routed to the right handler.
//!
//! `StreamManager` owns all active streams, keyed by our `local_id`. It allocates new IDs, which
//! increase from 1 on.

use crate::forward::{
    destination_of, destinations_are_named, parse_destination, Destination, DestinationError,
    DestinationView,
};
use crate::sync_service::{SyncService, SyncServiceView};
use crate::text::{begins_with, decimal_text, strip_prefix};
use std::collections::HashMap;
use vstd::prelude::*;

verus! {

broadcast use vstd::std_specs::hash::group_hash_axioms;

/// The service that the host asks for.
#[derive(Debug)]
pub enum ServiceRequest {
    /// File transfer (`sync:`).
    Sync,
    /// A shell (`shell:`), to run a command where one is given.
    Shell { command: Option<String> },
    /// A connection to a socket of the device (`tcp:`, `localabstract:`, `localfilesystem:`).
    Forward(Destination),
    /// A reboot of the device (`reboot:`).
    Reboot,
}

/// The service that the host asks for, as a value.
pub enum ServiceRequestView {
    Sync,
    Shell(Option<Seq<char>>),
    Forward(DestinationView),
    Reboot,
}

impl View for ServiceRequest {
    type V = ServiceRequestView;

    open spec fn view(&self) -> ServiceRequestView {
        match self {
            ServiceRequest::Sync => ServiceRequestView::Sync,
            ServiceRequest::Shell { command: Some(command) } => ServiceRequestView::Shell(
                Some(command@),
            ),
            ServiceRequest::Shell { command: None } => ServiceRequestView::Shell(None),
            ServiceRequest::Forward(destination) => ServiceRequestView::Forward(destination@),
            ServiceRequest::Reboot => ServiceRequestView::Reboot,
        }
    }
}

/// The service that a name stands for.
pub open spec fn service_of(name: Seq<char>) -> Result<ServiceRequestView, DestinationError> {
    if name == "sync:"@ {
        Ok(ServiceRequestView::Sync)
    } else if begins_with(name, "shell:"@) {
        let command = name.skip("shell:"@.len() as int);
        Ok(
            ServiceRequestView::Shell(
                if command.len() == 0 {
                    None
                } else {
                    Some(command)
                },
            ),
        )
    } else if name == "reboot:"@ {
        Ok(ServiceRequestView::Reboot)
    } else {
        match destination_of(name) {
            Ok(destination) => Ok(ServiceRequestView::Forward(destination)),
            Err(e) => Err(e),
        }
    }
}

/// Whether two texts are the same.
fn is_text(text: &str, wanted: &str) -> (res: bool)
    ensures
        res == (text@ == wanted@),
{
    match strip_prefix(text, wanted) {
        Some(rest) => {
            proof {
                if rest@.len() == 0 {
                    assert(text@.take(wanted@.len() as int) =~= text@);
                }
            }
            rest.is_empty()
        },
        None => {
            assert(text@.take(text@.len() as int) =~= text@);
            false
        },
    }
}

/// Reads the service that a name stands for.
///
/// # Errors
///
/// Returns an error if the service is unknown, or its destination invalid.
pub fn parse_service(name: &str) -> (res: Result<ServiceRequest, DestinationError>)
    ensures
        match res {
            Ok(service) => service_of(name@) == Ok::<ServiceRequestView, DestinationError>(
                service@,
            ),
            Err(e) => service_of(name@) == Err::<ServiceRequestView, DestinationError>(e),
        },
{
    if is_text(name, "sync:") {
        return Ok(ServiceRequest::Sync);
    }
    if let Some(command) = strip_prefix(name, "shell:") {
        let command: Option<String> = if command.is_empty() {
            None
        } else {
            Some(command.to_owned())
        };
        return Ok(ServiceRequest::Shell { command });
    }
    if is_text(name, "reboot:") {
        return Ok(ServiceRequest::Reboot);
    }
    match parse_destination(name) {
        Ok(destination) => Ok(ServiceRequest::Forward(destination)),
        Err(e) => Err(e),
    }
}

/// The program that a shell stream runs, and its arguments: the shell alone, or the shell with a
/// command.
pub fn shell_arguments(command: Option<&str>) -> (argv: Vec<String>)
    ensures
        argv@.map_values(|s: String| s@) == (match command {
            None => seq!["/bin/sh"@],
            Some(c) => seq!["/bin/sh"@, "-c"@, c@],
        }),
{
    let mut argv: Vec<String> = Vec::new();
    argv.push("/bin/sh".to_owned());
    if let Some(c) = command {
        argv.push("-c".to_owned());
        argv.push(c.to_owned());
        assert(argv@.map_values(|s: String| s@) =~= seq!["/bin/sh"@, "-c"@, c@]);
    } else {
        assert(argv@.map_values(|s: String| s@) =~= seq!["/bin/sh"@]);
    }
    argv
}

/// Back-end handler for an open ADB stream.
#[derive(Debug)]
pub enum Service {
    /// File-transfer service.
    Sync(SyncService),
    /// Interactive shell service.
    Shell,
    /// Socket forwarding service.
    Forward,
    /// The device is about to reboot; nothing more is expected on the stream.
    Reboot,
}

/// Handler of a stream, as a value.
pub enum ServiceView {
    Sync(SyncServiceView),
    Shell,
    Forward,
    Reboot,
}

impl View for Service {
    type V = ServiceView;

    open spec fn view(&self) -> ServiceView {
        match self {
            Service::Sync(service) => ServiceView::Sync(service@),
            Service::Shell => ServiceView::Shell,
            Service::Forward => ServiceView::Forward,
            Service::Reboot => ServiceView::Reboot,
        }
    }
}

/// An open ADB stream between host and device.
#[derive(Debug)]
pub struct Stream {
    /// The host-assigned stream ID.
    pub remote_id: u32,
    /// The service handler for this stream.
    pub service: Service,
    /// Whether we are waiting for an OKAY before sending the next WRTE.
    ///
    /// Set *before* the WRTE is submitted, cleared when the host's OKAY arrives. That the write
    /// is complete only frees its buffer; it plays no role in flow control.
    ///
    /// The OKAY may be seen before the completion of the WRTE. When that happens this flag is
    /// cleared and the next WRTE is submitted immediately, so two writes can be in flight at
    /// once. Each write has its own buffer, and the host can only send the OKAY after it received
    /// the WRTE on the bus, so the OKAY implies that the write reached the host in any case.
    pub waiting_for_okay: bool,
}

/// A stream as a value.
pub struct StreamView {
    pub remote_id: u32,
    pub service: ServiceView,
    pub waiting_for_okay: bool,
}

impl View for Stream {
    type V = StreamView;

    open spec fn view(&self) -> StreamView {
        StreamView {
            remote_id: self.remote_id,
            service: self.service@,
            waiting_for_okay: self.waiting_for_okay,
        }
    }
}

impl Stream {
    /// The session of a sync stream makes sense.
    pub open spec fn wf(self) -> bool {
        self.service matches Service::Sync(service) ==> service.wf()
    }
}

/// Manages active ADB streams, keyed by device-local ID.
#[derive(Debug)]
pub struct StreamManager {
    streams: HashMap<u32, Stream>,
    next_id: u32,
}

/// The active streams, as a value.
pub struct StreamsView {
    /// The streams by their device-local IDs.
    pub streams: Map<u32, StreamView>,
    /// The ID that the next stream gets.
    pub next_id: u32,
}

impl View for StreamManager {
    type V = StreamsView;

    closed spec fn view(&self) -> StreamsView {
        StreamsView {
            streams: self.streams@.map_values(|s: Stream| s@),
            next_id: self.next_id,
        }
    }
}

impl StreamManager {
    /// Every ID in use was handed out before, and none is 0.
    pub closed spec fn wf(self) -> bool {
        &&& self.next_id >= 1
        &&& forall|id: u32| #[trigger]
            self.streams@.contains_key(id) ==> 1 <= id < self.next_id && self.streams@[id].wf()
    }

    /// The IDs in use lie between 1 and the next one.
    pub proof fn ids_in_use(self)
        requires
            self.wf(),
        ensures
            self@.next_id >= 1,
            forall|id: u32| #[trigger]
                self@.streams.contains_key(id) ==> 1 <= id < self@.next_id,
    {
    }

    /// Creates an empty stream manager.
    pub fn new() -> (res: Self)
        ensures
            res.wf(),
            res@ == (StreamsView { streams: Map::empty(), next_id: 1 }),
    {
        let res = StreamManager { streams: HashMap::new(), next_id: 1 };
        assert(res@.streams =~= Map::empty());
        res
    }

    /// Opens a new stream for the given service, returning the `local_id`.
    pub fn open(&mut self, remote_id: u32, service: Service) -> (local_id: u32)
        requires
            old(self).wf(),
            service matches Service::Sync(s) ==> s.wf(),
            old(self)@.next_id < u32::MAX,
        ensures
            final(self).wf(),
            local_id == old(self)@.next_id,
            !old(self)@.streams.contains_key(local_id),
            final(self)@ == (StreamsView {
                streams: old(self)@.streams.insert(
                    local_id,
                    StreamView { remote_id, service: service@, waiting_for_okay: false },
                ),
                next_id: (old(self)@.next_id + 1) as u32,
            }),
    {
        let ghost before = self@.streams;
        let local_id: u32 = self.next_id;
        self.next_id = self.next_id + 1;
        let stream = Stream { remote_id, service, waiting_for_okay: false };
        let ghost view = stream@;
        self.streams.insert(local_id, stream);
        assert(self@.streams =~= before.insert(local_id, view));
        local_id
    }

    /// The ID that the next stream gets.
    pub fn next_local_id(&self) -> (res: u32)
        ensures
            res == self@.next_id,
    {
        self.next_id
    }

    /// Returns the stream with the given `local_id`.
    pub fn get(&self, local_id: u32) -> (res: Option<&Stream>)
        requires
            self.wf(),
        ensures
            match res {
                Some(stream) => {
                    &&& self@.streams.contains_key(local_id)
                    &&& self@.streams[local_id] == stream@
                    &&& stream.wf()
                },
                None => !self@.streams.contains_key(local_id),
            },
    {
        self.streams.get(&local_id)
    }

    /// Removes the stream with the given `local_id`, and returns it.
    pub fn take(&mut self, local_id: u32) -> (res: Option<Stream>)
        requires
            old(self).wf(),
        ensures
            final(self).wf(),
            final(self)@ == (StreamsView {
                streams: old(self)@.streams.remove(local_id),
                ..old(self)@
            }),
            match res {
                Some(stream) => {
                    &&& old(self)@.streams.contains_key(local_id)
                    &&& old(self)@.streams[local_id] == stream@
                    &&& stream.wf()
                },
                None => !old(self)@.streams.contains_key(local_id),
            },
    {
        let ghost before = self@.streams;
        let res = self.streams.remove(&local_id);
        assert(self@.streams =~= before.remove(local_id));
        res
    }

    /// Puts a stream back under the `local_id` that it had.
    pub fn put(&mut self, local_id: u32, stream: Stream)
        requires
            old(self).wf(),
            stream.wf(),
            1 <= local_id < old(self)@.next_id,
        ensures
            final(self).wf(),
            final(self)@ == (StreamsView {
                streams: old(self)@.streams.insert(local_id, stream@),
                ..old(self)@
            }),
    {
        let ghost before = self@.streams;
        let ghost view = stream@;
        self.streams.insert(local_id, stream);
        assert(self@.streams =~= before.insert(local_id, view));
    }

    /// Removes the stream with the given `local_id`.
    pub fn close(&mut self, local_id: u32)
        requires
            old(self).wf(),
        ensures
            final(self).wf(),
            final(self)@ == (StreamsView {
                streams: old(self)@.streams.remove(local_id),
                ..old(self)@
            }),
    {
        let _stream = self.take(local_id);
    }
}

/// Every service is asked for by its name: `sync:` for files, `reboot:` for a reboot, `shell:` with
/// a command behind it, which is run as it stands, or with none for a shell by itself, and the
/// destinations for sockets.
pub proof fn services_are_named(command: Seq<char>, port: u16, name: Seq<char>)
    ensures
        service_of("sync:"@) == Ok::<ServiceRequestView, DestinationError>(
            ServiceRequestView::Sync,
        ),
        service_of("reboot:"@) == Ok::<ServiceRequestView, DestinationError>(
            ServiceRequestView::Reboot,
        ),
        service_of("shell:"@) == Ok::<ServiceRequestView, DestinationError>(
            ServiceRequestView::Shell(None),
        ),
        command.len() > 0 ==> service_of("shell:"@ + command) == Ok::<
            ServiceRequestView,
            DestinationError,
        >(ServiceRequestView::Shell(Some(command))),
        service_of("tcp:"@ + decimal_text(port as nat)) == Ok::<
            ServiceRequestView,
            DestinationError,
        >(ServiceRequestView::Forward(DestinationView::Tcp(port))),
        service_of("localabstract:"@ + name) == Ok::<ServiceRequestView, DestinationError>(
            ServiceRequestView::Forward(DestinationView::Abstract(name)),
        ),
        service_of("localfilesystem:"@ + name) == Ok::<ServiceRequestView, DestinationError>(
            ServiceRequestView::Forward(DestinationView::Path(name)),
        ),
{
    reveal_strlit("sync:");
    reveal_strlit("reboot:");
    reveal_strlit("shell:");
    reveal_strlit("tcp:");
    reveal_strlit("localabstract:");
    reveal_strlit("localfilesystem:");
    destinations_are_named(port, 0, name);
    lemma_first_letter("sync:"@, "shell:"@, 1);
    lemma_first_letter("reboot:"@, "shell:"@, 0);
    lemma_first_letter("tcp:"@ + decimal_text(port as nat), "shell:"@, 0);
    lemma_first_letter("localabstract:"@ + name, "shell:"@, 0);
    lemma_first_letter("localfilesystem:"@ + name, "shell:"@, 0);
    assert("reboot:"@[0] == 'r' && "sync:"@[0] == 's' && "sync:"@[1] == 'y');
    let shell = "shell:"@ + command;
    assert(shell[1] == 'h');
    assert(shell.take(6) =~= "shell:"@);
    assert(shell.skip(6) =~= command);
    assert("shell:"@.take(6) =~= "shell:"@);
    assert("shell:"@[1] == 'h');
    assert(("tcp:"@ + decimal_text(port as nat))[0] == 't');
    assert(("localabstract:"@ + name)[0] == 'l');
    assert(("localfilesystem:"@ + name)[0] == 'l');
}

proof fn lemma_first_letter(name: Seq<char>, prefix: Seq<char>, i: int)
    requires
        0 <= i < prefix.len(),
        i < name.len(),
        name[i] != prefix[i],
    ensures
        !begins_with(name, prefix),
{
    if begins_with(name, prefix) {
        assert(name.take(prefix.len() as int)[i] == name[i]);
    }
}

/// A name that is taken for a service is the name of that service: nothing else is started under
/// it.
pub proof fn services_have_their_own_names(name: Seq<char>)
    ensures
        match service_of(name) {
            Ok(ServiceRequestView::Sync) => name == "sync:"@,
            Ok(ServiceRequestView::Reboot) => name == "reboot:"@,
            Ok(ServiceRequestView::Shell(None)) => name == "shell:"@,
            Ok(ServiceRequestView::Shell(Some(command))) => command.len() > 0 && name == "shell:"@
                + command,
            Ok(ServiceRequestView::Forward(destination)) => destination_of(name) == Ok::<
                DestinationView,
                DestinationError,
            >(destination),
            Err(e) => destination_of(name) == Err::<DestinationView, DestinationError>(e),
        },
{
    reveal_strlit("shell:");
    if begins_with(name, "shell:"@) {
        assert(name =~= "shell:"@ + name.skip(6));
    }
}

} // verus!
