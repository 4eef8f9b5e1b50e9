use crate::game::client::window::WindowId;
use vstd::prelude::*;
use vstd::string::*;

verus! {

/// The window in which the player enters a name and the server's address.
#[derive(Debug, Clone, PartialEq, Eq)]
pub struct ServerJoinWindow {
    pub address: String,
    pub name: String,
}

impl ServerJoinWindow {
    /// The window's name.
    pub fn id(&self) -> (id: WindowId)
        ensures
            id == WindowId::ServerJoin,
    {
        WindowId::ServerJoin
    }
}

impl Default for ServerJoinWindow {
    /// No name yet, and the address of a server on this machine.
    fn default() -> (window: ServerJoinWindow)
        ensures
            window.name@ == Seq::<char>::empty(),
            window.address@ == "127.0.0.1:2488"@,
    {
        ServerJoinWindow { name: String::new(), address: String::from_str("127.0.0.1:2488") }
    }
}

} // verus!
