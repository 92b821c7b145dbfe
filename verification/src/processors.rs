//! The processors which are waited for together: one for each connection, and
//! one which receives the next connection.
use vstd::prelude::*;

verus! {

/// What came of a processor that is done.
pub enum ProcessorKind<R, C> {
    /// A connection was processed to its end.
    Connection,
    /// The next connection was received, by the receiver of connections, which
    /// is not in use any more.
    Receiver(R, C),
}

/// Keeps account of which processors there are.
pub struct Processors<R> {
    needs_next_connection: bool,
    // The receiver of connections, when no processor is using it.
    connection_receiver: Option<R>,
    // The number of processors for connections.
    connections: Ghost<nat>,
}

impl<R> Processors<R> {
    /// The receiver of connections, when no processor is using it.
    pub closed spec fn receiver(&self) -> Option<R> {
        self.connection_receiver
    }

    /// The number of processors for connections.
    pub closed spec fn connections(&self) -> nat {
        self.connections@
    }

    /// The number of all processors.
    pub open spec fn count(&self) -> nat {
        if self.receiver() is None {
            self.connections() + 1
        } else {
            self.connections()
        }
    }

    #[verifier::type_invariant]
    closed spec fn wf(&self) -> bool {
        self.needs_next_connection == self.connection_receiver is Some
    }

    /// Begins without any processors.
    pub fn new(connection_receiver: R) -> (processors: Self)
        ensures
            processors.receiver() == Some(connection_receiver),
            processors.connections() == 0,
    {
        Processors {
            needs_next_connection: true,
            connection_receiver: Some(connection_receiver),
            connections: Ghost(0),
        }
    }

    /// Gives the receiver of connections if a processor is to be made that uses
    /// it, so that there always is one when the processors are waited for.
    pub fn next_receiver(self) -> (result: (Option<R>, Self))
        ensures
            result.0 == self.receiver(),
            result.1.receiver() is None,
            result.1.connections() == self.connections(),
            result.1.count() == self.connections() + 1,
    {
        proof {
            use_type_invariant(&self);
        }
        let Processors { needs_next_connection, connection_receiver, connections } = self;
        let receiver = if needs_next_connection {
            connection_receiver
        } else {
            None
        };
        (receiver, Processors { needs_next_connection: false, connection_receiver: None, connections })
    }

    /// Goes on when one of the processors is done.  Gives the connection to
    /// make a new processor for, if any.
    pub fn completed<C>(self, kind: ProcessorKind<R, C>) -> (result: (Option<C>, Self))
        requires
            self.receiver() is None,
            kind is Connection ==> self.connections() > 0,
        ensures
            match kind {
                ProcessorKind::Connection => {
                    &&& result.0 is None
                    &&& result.1.receiver() is None
                    &&& result.1.connections() == self.connections() - 1
                },
                ProcessorKind::Receiver(receiver, connection) => {
                    &&& result.0 == Some(connection)
                    &&& result.1.receiver() == Some(receiver)
                    &&& result.1.connections() == self.connections() + 1
                },
            },
    {
        let Processors { connections, .. } = self;
        match kind {
            ProcessorKind::Connection => {
                (
                    None,
                    Processors {
                        needs_next_connection: false,
                        connection_receiver: None,
                        connections: Ghost((connections@ - 1) as nat),
                    },
                )
            },
            ProcessorKind::Receiver(receiver, connection) => {
                (
                    Some(connection),
                    Processors {
                        needs_next_connection: true,
                        connection_receiver: Some(receiver),
                        connections: Ghost(connections@ + 1),
                    },
                )
            },
        }
    }
}

} // verus!
