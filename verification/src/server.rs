//! The server's own state: its configuration, whether it is closing, and
//! what every connected socket must be told at shutdown.

use vstd::prelude::*;

use crate::adapters::LocalAdapter;
use crate::frames::spec_error_frame;
use crate::options::{default_options, Options};
use crate::session::bytes_of;

verus! {

/// The broker's state outside the registries: its options and whether it is
/// shutting down.
pub struct Server {
    pub closing: bool,
    pub options: Options,
}

impl Server {
    /// A freshly started broker: accepting, with the default options.
    pub fn new() -> (r: Self)
        ensures
            !r.closing,
            r.options.port == 6001,
            r.options.debug,
            r.options.adapter.driver@ == "local"@,
            r.options.app_manager.driver@ == "array"@,
            r.options.app_manager.array.apps@.len() == 0,
            !r.options.metrics.enabled,
            r.options.metrics.port == 9601,
            r.options.metrics.driver@ == "prometheus"@,
            r.options.metrics.host@ == "0.0.0.0"@,
            r.options.metrics.prometheus.prefix@ == "echoxide_"@,
    {
        Server { closing: false, options: default_options() }
    }

    /// The broker itself.
    pub fn get_instance(self) -> (r: Self)
        ensures
            r == self,
    {
        self
    }

    /// Whether a new connection may be accepted.
    pub fn accepting(&self) -> (r: bool)
        ensures
            r == !self.closing,
    {
        !self.closing
    }

    /// Enter the closing state: from here on new connections are refused
    /// with code 4200 and existing sockets are told to go.
    pub fn stop(&mut self)
        ensures
            final(self).closing,
            final(self).options == old(self).options,
    {
        self.closing = true;
    }

    /// What shutdown sends: for every socket of every application, the
    /// `pusher:error` frame with code 4200 that precedes its close.
    pub fn shutdown_frames(&self, adapter: &LocalAdapter) -> (r: Vec<(String, String, Vec<u8>)>)
        requires
            adapter.wf(),
        ensures
            forall|i: int|
                0 <= i < r@.len() ==> ({
                    &&& adapter@.dom().contains((#[trigger] r@[i]).0@)
                    &&& adapter@[(r@[i]).0@].sockets.dom().contains((r@[i]).1@)
                    &&& exists|m: Seq<char>| ((r@[i]).2)@ == spec_error_frame(4200, bytes_of(m))
                }),
            forall|app: Seq<char>, sid: Seq<char>|
                adapter@.dom().contains(app) && #[trigger] adapter@[app].sockets.dom().contains(
                    sid,
                ) ==> exists|i: int|
                    0 <= i < r@.len() && (#[trigger] r@[i]).0@ == app && (r@[i]).1@ == sid,
    {
        let message = "Server is closing. Please reconnect shortly.";
        let frame = crate::frames::error_frame(crate::session::CODE_SERVER_CLOSING, message);
        proof {
            assert(frame@ == spec_error_frame(4200, bytes_of(message@)));
        }
        let apps = adapter.get_namespaces();
        let n = apps.len();
        let mut r: Vec<(String, String, Vec<u8>)> = Vec::new();
        let mut i: usize = 0;
        while i < n
            invariant
                i <= n,
                n == apps@.len(),
                adapter.wf(),
                frame@ == spec_error_frame(4200, bytes_of(message@)),
                forall|j: int| 0 <= j < n ==> adapter@.dom().contains((#[trigger] apps@[j])@),
                forall|k: Seq<char>|
                    adapter@.dom().contains(k) ==> exists|j: int|
                        0 <= j < n && (#[trigger] apps@[j])@ == k,
                forall|j1: int, j2: int| 0 <= j1 < j2 < n ==> (apps@[j1])@ != (apps@[j2])@,
                forall|x: int|
                    0 <= x < r@.len() ==> ({
                        &&& adapter@.dom().contains((#[trigger] r@[x]).0@)
                        &&& adapter@[(r@[x]).0@].sockets.dom().contains((r@[x]).1@)
                        &&& ((r@[x]).2)@ == frame@
                    }),
                forall|j: int, sid: Seq<char>|
                    0 <= j < i && #[trigger] adapter@[(apps@[j])@].sockets.dom().contains(sid)
                        ==> exists|x: int|
                        0 <= x < r@.len() && (#[trigger] r@[x]).0@ == (apps@[j])@ && (r@[x]).1@
                            == sid,
            decreases n - i,
        {
            let sockets = adapter.get_sockets(apps[i].as_str());
            let sn = sockets.len();
            let mut k: usize = 0;
            while k < sn
                invariant
                    k <= sn,
                    i < n,
                    n == apps@.len(),
                    sn == sockets@.len(),
                    adapter.wf(),
                    frame@ == spec_error_frame(4200, bytes_of(message@)),
                    adapter@.dom().contains((apps@[i as int])@),
                    forall|y: int|
                        0 <= y < sn ==> adapter@[(apps@[i as int])@].sockets.dom().contains(
                            (#[trigger] sockets@[y])@,
                        ),
                    forall|sid: Seq<char>|
                        adapter@[(apps@[i as int])@].sockets.dom().contains(sid) ==> exists|y: int|
                            0 <= y < sn && (#[trigger] sockets@[y])@ == sid,
                    forall|x: int|
                        0 <= x < r@.len() ==> ({
                            &&& adapter@.dom().contains((#[trigger] r@[x]).0@)
                            &&& adapter@[(r@[x]).0@].sockets.dom().contains((r@[x]).1@)
                            &&& ((r@[x]).2)@ == frame@
                        }),
                    forall|j: int, sid: Seq<char>|
                        0 <= j < i && #[trigger] adapter@[(apps@[j])@].sockets.dom().contains(sid)
                            ==> exists|x: int|
                            0 <= x < r@.len() && (#[trigger] r@[x]).0@ == (apps@[j])@ && (
                            r@[x]).1@ == sid,
                    forall|y: int|
                        0 <= y < k ==> exists|x: int|
                            0 <= x < r@.len() && (r@[x]).0@ == (apps@[i as int])@ && (r@[x]).1@
                                == (#[trigger] sockets@[y])@,
                decreases sn - k,
            {
                let ghost rpre = r@;
                r.push((apps[i].clone(), sockets[k].clone(), frame.clone()));
                proof {
                    assert(((r@[r@.len() - 1]).2)@ == frame@);
                    assert forall|j: int, sid: Seq<char>|
                        0 <= j < i && #[trigger] adapter@[(apps@[j])@].sockets.dom().contains(
                            sid,
                        ) implies exists|x: int|
                        0 <= x < r@.len() && (#[trigger] r@[x]).0@ == (apps@[j])@ && (r@[x]).1@
                            == sid by {
                        let x = choose|x: int|
                            0 <= x < rpre.len() && (#[trigger] rpre[x]).0@ == (apps@[j])@ && (
                            rpre[x]).1@ == sid;
                        assert((r@[x]).0@ == (apps@[j])@ && (r@[x]).1@ == sid);
                    }
                    assert forall|y: int| 0 <= y < k + 1 implies exists|x: int|
                        0 <= x < r@.len() && (r@[x]).0@ == (apps@[i as int])@ && (r@[x]).1@ == (
                        #[trigger] sockets@[y])@ by {
                        if y < k {
                            let x = choose|x: int|
                                0 <= x < rpre.len() && (rpre[x]).0@ == (apps@[i as int])@ && (
                                rpre[x]).1@ == ((sockets@[y])@);
                            assert((r@[x]).0@ == (apps@[i as int])@ && (r@[x]).1@ == (
                            sockets@[y])@);
                        } else {
                            assert((r@[r@.len() - 1]).0@ == (apps@[i as int])@ && (r@[r@.len()
                                - 1]).1@ == (sockets@[y])@);
                        }
                    }
                }
                k = k + 1;
            }
            proof {
                assert forall|sid: Seq<char>|
                    #[trigger] adapter@[(apps@[i as int])@].sockets.dom().contains(sid) implies exists|
                    x: int,
                |
                    0 <= x < r@.len() && (#[trigger] r@[x]).0@ == (apps@[i as int])@ && (r@[x]).1@
                        == sid by {
                    let y = choose|y: int| 0 <= y < sn && (#[trigger] sockets@[y])@ == sid;
                    let x = choose|x: int|
                        0 <= x < r@.len() && (#[trigger] r@[x]).0@ == (apps@[i as int])@ && (
                        r@[x]).1@ == (sockets@[y])@;
                }
            }
            i = i + 1;
        }
        proof {
            assert forall|app: Seq<char>, sid: Seq<char>|
                adapter@.dom().contains(app) && #[trigger] adapter@[app].sockets.dom().contains(
                    sid,
                ) implies exists|x: int|
                0 <= x < r@.len() && (#[trigger] r@[x]).0@ == app && (r@[x]).1@ == sid by {
                let j = choose|j: int| 0 <= j < n && (#[trigger] apps@[j])@ == app;
            }
            assert forall|x: int| 0 <= x < r@.len() implies exists|m: Seq<char>|
                ((#[trigger] r@[x]).2)@ == spec_error_frame(4200, bytes_of(m)) by {
                assert(((r@[x]).2)@ == spec_error_frame(4200, bytes_of(message@)));
            }
        }
        r
    }
}

} // verus!
