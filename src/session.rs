//! The session with the counterpart: key exchange and the sealing of each message between
//! the session's secret key and the counterpart's public key.
use vstd::prelude::*;
use crate::protocol::ProtocolError;
use crate::seal::{box_to, boxed_of, public_key, public_of, unbox_from, unboxed_of, KEY_LEN, NONCE_LEN};

verus! {

#[derive(Clone, Copy, Debug, PartialEq, Eq, Structural)]
pub enum SessionError {
    /// The counterpart returned no usable public key.
    KeyExchange,
}

/// One invocation's session: the client identifier, the ephemeral secret key and the
/// counterpart's public key.
pub struct Session {
    pub client_id: String,
    pub session_secret: Vec<u8>,
    pub host_public: Vec<u8>,
}

/// A sealed request as it goes out: nonce and client identifier in the clear.
#[derive(Clone, Debug)]
pub struct Envelope {
    pub client_id: String,
    pub nonce: Vec<u8>,
    pub message: Vec<u8>,
}

impl Session {
    pub open spec fn wf(&self) -> bool {
        self.session_secret@.len() == KEY_LEN && self.host_public@.len() == KEY_LEN
    }

    /// The public key to announce in the key exchange.
    pub fn session_public(&self) -> (r: Vec<u8>)
        requires
            self.wf(),
        ensures
            r@ == public_of(self.session_secret@),
    {
        public_key(&self.session_secret)
    }

    /// Seals a request payload for the counterpart under a fresh nonce.
    pub fn encrypt_request(&self, payload: &Vec<u8>) -> (r: Envelope)
        requires
            self.wf(),
        ensures
            r.client_id@ == self.client_id@,
            r.nonce@.len() == NONCE_LEN,
            r.message@ == boxed_of(self.host_public@, self.session_secret@, r.nonce@, payload@),
    {
        let nonce = crate::seal::fresh_nonce();
        let message = box_to(&self.host_public, &self.session_secret, &nonce, payload).unwrap();
        Envelope { client_id: self.client_id.clone(), nonce, message }
    }

    /// Opens a reply: its nonce must differ from the request's and have the nonce length,
    /// and the message must open under the session keys.
    pub fn decrypt_reply(&self, request_nonce: &Vec<u8>, reply_nonce: &Vec<u8>, message: &Vec<u8>) -> (r: Result<Vec<u8>, ProtocolError>)
        requires
            self.wf(),
        ensures
            request_nonce@ == reply_nonce@ ==> r == Err::<Vec<u8>, ProtocolError>(ProtocolError::ReplayedNonce),
            request_nonce@ != reply_nonce@ && reply_nonce@.len() != NONCE_LEN ==> r == Err::<Vec<u8>, ProtocolError>(ProtocolError::Malformed),
            request_nonce@ != reply_nonce@ && reply_nonce@.len() == NONCE_LEN ==> match unboxed_of(
                self.host_public@,
                self.session_secret@,
                reply_nonce@,
                message@,
            ) {
                Some(p) => r is Ok && r->Ok_0@ == p,
                None => r == Err::<Vec<u8>, ProtocolError>(ProtocolError::Malformed),
            },
    {
        if let Err(e) = crate::protocol::check_reply_nonce(request_nonce, reply_nonce) {
            return Err(e);
        }
        if reply_nonce.len() != NONCE_LEN {
            return Err(ProtocolError::Malformed);
        }
        match unbox_from(&self.host_public, &self.session_secret, reply_nonce, message) {
            Some(p) => Ok(p),
            None => Err(ProtocolError::Malformed),
        }
    }
}

/// The reply carried a key of the right length.
pub open spec fn usable_key(reply_public_key: Option<Vec<u8>>) -> bool {
    reply_public_key matches Some(k) && k@.len() == KEY_LEN
}

/// The counterpart's public key from its key-exchange reply.
pub fn exchange_keys(reply_public_key: Option<Vec<u8>>) -> (r: Result<Vec<u8>, SessionError>)
    ensures
        usable_key(reply_public_key) ==> r is Ok && r->Ok_0@ == reply_public_key->0@,
        !usable_key(reply_public_key) ==> r == Err::<Vec<u8>, SessionError>(SessionError::KeyExchange),
{
    match reply_public_key {
        Some(k) => if k.len() == KEY_LEN {
            Ok(k)
        } else {
            Err(SessionError::KeyExchange)
        },
        None => Err(SessionError::KeyExchange),
    }
}

/// A fresh session secret key.
pub fn new_session_secret() -> (r: Vec<u8>)
    ensures
        r@.len() == KEY_LEN,
{
    crate::seal::fresh_key()
}

/// Builds the session once the counterpart has answered the key exchange.
pub fn start_session(client_id: String, session_secret: Vec<u8>, reply_public_key: Option<Vec<u8>>) -> (r: Result<Session, SessionError>)
    requires
        session_secret@.len() == KEY_LEN,
    ensures
        usable_key(reply_public_key) ==> r is Ok && r->Ok_0.wf() && r->Ok_0.client_id@ == client_id@
            && r->Ok_0.session_secret@ == session_secret@ && r->Ok_0.host_public@ == reply_public_key->0@,
        !usable_key(reply_public_key) ==> r == Err::<Session, SessionError>(SessionError::KeyExchange),
{
    match exchange_keys(reply_public_key) {
        Ok(host_public) => Ok(Session { client_id, session_secret, host_public }),
        Err(e) => Err(e),
    }
}

} // verus!
