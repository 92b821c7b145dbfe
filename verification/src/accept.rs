//! Accepting connections: which listener they come from, and which function
//! wraps them.
//!
//! The listener and the wrapper are each taken out while they are in use.  A
//! new listener, with a new wrapper, may come at any time and takes the place
//! of the old ones, wherever they are.
use crate::error::Error;
use vstd::prelude::*;

verus! {

/// The listener and the connection wrapper that are not in use.
pub struct Accepter<L, W> {
    listener: Option<L>,
    connection_wrapper: Option<W>,
}

/// What an accepter holds.
pub struct AccepterView<L, W> {
    pub listener: Option<L>,
    pub connection_wrapper: Option<W>,
}

/// What to do with a connection that was accepted.
pub enum Accepted<W, C> {
    /// Have the wrapper wrap the connection.
    Wrap(W, C),
    /// Pass the connection on as it is.
    Ready(C),
}

impl<L, W> AccepterView<L, W> {
    /// What is held when a new listener has come.
    pub open spec fn started(self, listener: L, connection_wrapper: W) -> Self {
        AccepterView {
            listener: Some(listener),
            connection_wrapper: Some(connection_wrapper),
        }
    }

    /// What is held while a connection is waited for.
    pub open spec fn listening(self) -> Self {
        AccepterView { listener: None, connection_wrapper: self.connection_wrapper }
    }

    /// What is held when the listener has accepted a connection, while that is
    /// wrapped.  A listener that has come in the meantime is kept.
    pub open spec fn wrapping(self, listener: L) -> Self {
        AccepterView {
            listener: match self.listener {
                Some(newer) => Some(newer),
                None => Some(listener),
            },
            connection_wrapper: None,
        }
    }

    /// What is held when a connection has been wrapped.
    pub open spec fn wrapped(self, connection_wrapper: W) -> Self {
        AccepterView { listener: self.listener, connection_wrapper: Some(connection_wrapper) }
    }
}

impl<L, W> View for Accepter<L, W> {
    type V = AccepterView<L, W>;

    closed spec fn view(&self) -> AccepterView<L, W> {
        AccepterView { listener: self.listener, connection_wrapper: self.connection_wrapper }
    }
}

impl<L, W> Accepter<L, W> {
    /// Makes an accepter which waits for its first listener.
    pub fn new() -> (accepter: Self)
        ensures
            accepter@ == (AccepterView::<L, W> { listener: None, connection_wrapper: None }),
    {
        Accepter { listener: None, connection_wrapper: None }
    }

    /// Takes over a new listener, and the wrapper for the connections from it.
    pub fn start(&mut self, listener: L, connection_wrapper: W)
        ensures
            final(self)@ == old(self)@.started(listener, connection_wrapper),
    {
        self.listener = Some(listener);
        self.connection_wrapper = Some(connection_wrapper);
    }

    /// Gives the listener to wait on for a connection.  Without one there is
    /// nothing to do but to wait for one to come.
    pub fn listen(&mut self) -> (listener: Option<L>)
        ensures
            listener == old(self)@.listener,
            final(self)@ == old(self)@.listening(),
    {
        self.listener.take()
    }

    /// Goes on with a connection which the listener has accepted.  A listener
    /// that could not accept one is not given back.
    pub fn accepted<C>(&mut self, listener: L, connection: C) -> (accepted: Accepted<W, C>)
        ensures
            accepted == match old(self)@.connection_wrapper {
                Some(wrapper) => Accepted::Wrap(wrapper, connection),
                None => Accepted::<W, C>::Ready(connection),
            },
            final(self)@ == old(self)@.wrapping(listener),
    {
        if self.listener.is_none() {
            self.listener = Some(listener);
        }
        match self.connection_wrapper.take() {
            Some(wrapper) => Accepted::Wrap(wrapper, connection),
            None => Accepted::Ready(connection),
        }
    }

    /// Takes the wrapper back and gives the connection that it made, or the
    /// error for want of it.
    pub fn wrapped<C, E>(&mut self, connection_wrapper: W, wrapped: Result<C, E>) -> (connection:
        Result<C, Error<E>>)
        ensures
            connection == match wrapped {
                Ok(connection) => Ok::<C, Error<E>>(connection),
                Err(error) => Err(Error::ConnectionWrapper(error)),
            },
            final(self)@ == old(self)@.wrapped(connection_wrapper),
    {
        self.connection_wrapper = Some(connection_wrapper);
        match wrapped {
            Ok(connection) => Ok(connection),
            Err(error) => Err(Error::ConnectionWrapper(error)),
        }
    }
}

} // verus!
