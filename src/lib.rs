//! Deferred-initialization event routing and live asset watching for an
//! interactive surface whose application object is built asynchronously.
use vstd::prelude::*;

pub mod assets;
pub mod router;
pub mod watch;

use crate::router::{RouterState, WinitProxy};

verus! {

/// An event for the application, delivered through the host's event queue.
pub enum Event {
    /// The full contents of a watched file, named by its file name.
    FileContents(String, Vec<u8>),
}

impl View for Event {
    type V = (Seq<char>, Seq<u8>);

    open spec fn view(&self) -> (Seq<char>, Seq<u8>) {
        match self {
            Event::FileContents(name, bytes) => (name@, bytes@),
        }
    }
}

/// Begins a run: the router as it stands before the host's first activation
/// signal, holding the handle through which the finished application will
/// be sent back.
pub fn start<P, A, W, U>(handle: P) -> (r: WinitProxy<P, A, W, U>)
    ensures
        r@ == RouterState::<P, A, W, U>::Uninit(handle),
{
    WinitProxy::Uninit(handle)
}

} // verus!
