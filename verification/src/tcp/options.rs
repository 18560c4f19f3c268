//! Options of the stream server.
use vstd::prelude::*;

verus! {

/// Where the stream server listens.
#[derive(Clone, Debug)]
pub struct ServerOptions {
    /// The port to listen on; 0 leaves the choice to the system.
    pub port: u16,
    /// The network interface whose address to listen on, if one is prescribed.
    pub interface: Option<String>,
}

impl Default for ServerOptions {
    /// A port of the system's choice, on no particular interface.
    fn default() -> (options: Self)
        ensures
            options.port == 0,
            options.interface is None,
    {
        ServerOptions { port: 0, interface: None }
    }
}

impl ServerOptions {
    /// A builder on which nothing is set.
    pub fn builder() -> (builder: ServerOptionsBuilder)
        ensures
            builder.port is None,
            builder.interface is None,
    {
        ServerOptionsBuilder { port: None, interface: None }
    }
}

/// Collects the options one by one.
#[derive(Clone, Debug)]
pub struct ServerOptionsBuilder {
    /// The port, once it was set.
    pub port: Option<u16>,
    /// The interface, once it was set.
    pub interface: Option<Option<String>>,
}

/// The reason why options could not be built: a field without a value or a default.
#[derive(Clone, Debug)]
pub enum ServerOptionsBuilderError {
    /// The field was not set and has no default.
    UninitializedField(String),
}

impl ServerOptionsBuilder {
    /// Sets the port.
    pub fn port(&mut self, value: u16) -> (builder: &mut Self)
        ensures
            builder.port == Some(value),
            builder.interface == old(self).interface,
            *final(self) == *final(builder),
    {
        self.port = Some(value);
        self
    }

    /// Sets the interface.
    pub fn interface(&mut self, value: Option<String>) -> (builder: &mut Self)
        ensures
            builder.interface == Some(value),
            builder.port == old(self).port,
            *final(self) == *final(builder),
    {
        self.interface = Some(value);
        self
    }

    /// The options as they were set; what was not set has its default, so building
    /// never fails.
    pub fn build(&self) -> (r: Result<ServerOptions, ServerOptionsBuilderError>)
        ensures
            r is Ok,
            r->Ok_0.port == (match self.port {
                Some(port) => port,
                None => 0,
            }),
            (r->Ok_0.interface is Some) == (self.interface matches Some(Some(_))),
            self.interface matches Some(Some(name)) ==> r->Ok_0.interface->0@ == name@,
    {
        let port: u16 = match self.port {
            Some(port) => port,
            None => 0,
        };
        let interface: Option<String> = match &self.interface {
            Some(Some(name)) => Some(name.clone()),
            _ => None,
        };
        Ok(ServerOptions { port, interface })
    }
}

/// What was set is what comes out, and what was not set has its default: a port of the
/// system's choice, and no particular interface.
pub proof fn options_come_out_as_set(
    builder: &ServerOptionsBuilder,
    r: Result<ServerOptions, ServerOptionsBuilderError>,
)
    requires
        call_ensures(ServerOptionsBuilder::build, (builder,), r),
    ensures
        r is Ok,
        builder.port matches Some(port) ==> r->Ok_0.port == port,
        builder.port is None ==> r->Ok_0.port == 0,
        builder.interface matches Some(Some(name)) ==> r->Ok_0.interface is Some
            && r->Ok_0.interface->0@ == name@,
        builder.interface is None || builder.interface == Some(None::<String>)
            ==> r->Ok_0.interface is None,
{
}

} // verus!
