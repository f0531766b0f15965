use vstd::prelude::*;
use crate::error::EngineError;
use crate::partition::{Message, PolledMessage};

verus! {

/// Whether every result is present.
pub open spec fn all_present(results: Seq<Option<Vec<u8>>>) -> bool {
    forall|i: int| 0 <= i < results.len() ==> (#[trigger] results[i]) is Some
}

fn check_results(results: &Vec<Option<Vec<u8>>>) -> (r: bool)
    ensures
        r == all_present(results@),
{
    let mut i: usize = 0;
    while i < results.len()
        invariant
            i <= results@.len(),
            forall|j: int| 0 <= j < i ==> (#[trigger] results@[j]) is Some,
        decreases results@.len() - i,
    {
        if results[i].is_none() {
            return false;
        }
        i = i + 1;
    }
    true
}

/// Gives each message of a batch the payload the encryptor produced for it
/// (`encrypted[i]` for message `i`, absent where encryption failed). Any
/// failure aborts the batch.
pub fn with_encrypted_payloads(messages: Vec<Message>,
    encrypted: Vec<Option<Vec<u8>>>) -> (r: Result<
    Vec<Message>,
    EngineError,
>)
    ensures
        encrypted@.len() != messages@.len() ==> r == Err::<Vec<Message>, EngineError>(
            EngineError::InternalError,
        ),
        encrypted@.len() == messages@.len() && !all_present(encrypted@) ==> r == Err::<
            Vec<Message>,
            EngineError,
        >(EngineError::CannotEncryptData),
        encrypted@.len() == messages@.len()
            && all_present(encrypted@) ==> (r matches Ok(v) && v@.len()
            == messages@.len() && forall|i: int|
            0 <= i < v@.len() ==> (#[trigger] v@[i]).id == messages@[i].id
                && v@[i].state == messages@[i].state
                && v@[i].checksum == messages@[i].checksum
                    && v@[i].headers@ == messages@[i].headers@ && v@[i].payload@
                == encrypted@[i]->Some_0@),
{
    if encrypted.len() != messages.len() {
        return Err(EngineError::InternalError);
    }
    if !check_results(&encrypted) {
        return Err(EngineError::CannotEncryptData);
    }
    let ghost msgs = messages@;
    let ghost enc = encrypted@;
    let mut messages = messages;
    let mut encrypted = encrypted;
    let mut out: Vec<Message> = Vec::new();
    let n = messages.len();
    let mut k: usize = 0;
    while k < n
        invariant
            n == msgs.len(),
            n == enc.len(),
            k <= n,
            messages@ == msgs.skip(k as int),
            encrypted@ == enc.skip(k as int),
            all_present(enc),
            out@.len() == k,
            forall|i: int|
                0 <= i < k ==> (#[trigger] out@[i]).id == msgs[i].id
                    && out@[i].state == msgs[i].state
                    && out@[i].checksum == msgs[i].checksum && out@[i].headers@ == msgs[i].headers@
                        && out@[i].payload@
                    == enc[i]->Some_0@,
        decreases n - k,
    {
        let m = messages.remove(0);
        let e = encrypted.remove(0);
        proof {
            assert(m == msgs[k as int]);
            assert(e == enc[k as int]);
            assert(messages@ =~= msgs.skip(k + 1));
            assert(encrypted@ =~= enc.skip(k + 1));
        }
        let payload = match e {
            Some(p) => p,
            None => Vec::new(),
        };
        out.push(Message { id: m.id, state: m.state, checksum: m.checksum, headers: m.headers,
            payload });
        k = k + 1;
    }
    Ok(out)
}

/// Gives each polled message the payload the decryptor produced for it
/// (`decrypted[i]` for message `i`, absent where decryption failed). Any
/// failure fails the poll; the stored messages are not touched.
pub fn with_decrypted_payloads(messages: Vec<PolledMessage>,
    decrypted: Vec<Option<Vec<u8>>>) -> (r: Result<
    Vec<PolledMessage>,
    EngineError,
>)
    ensures
        decrypted@.len() != messages@.len() ==> r == Err::<Vec<PolledMessage>, EngineError>(
            EngineError::InternalError,
        ),
        decrypted@.len() == messages@.len() && !all_present(decrypted@) ==> r == Err::<
            Vec<PolledMessage>,
            EngineError,
        >(EngineError::CannotDecryptData),
        decrypted@.len() == messages@.len()
            && all_present(decrypted@) ==> (r matches Ok(v) && v@.len()
            == messages@.len() && forall|i: int|
            0 <= i < v@.len() ==> (#[trigger] v@[i]).id == messages@[i].id
                && v@[i].state == messages@[i].state
                && v@[i].checksum == messages@[i].checksum
                    && v@[i].headers@ == messages@[i].headers@ && v@[i].offset
                == messages@[i].offset && v@[i].timestamp == messages@[i].timestamp
                && v@[i].payload@ == decrypted@[i]->Some_0@),
{
    if decrypted.len() != messages.len() {
        return Err(EngineError::InternalError);
    }
    if !check_results(&decrypted) {
        return Err(EngineError::CannotDecryptData);
    }
    let ghost msgs = messages@;
    let ghost dec = decrypted@;
    let mut messages = messages;
    let mut decrypted = decrypted;
    let mut out: Vec<PolledMessage> = Vec::new();
    let n = messages.len();
    let mut k: usize = 0;
    while k < n
        invariant
            n == msgs.len(),
            n == dec.len(),
            k <= n,
            messages@ == msgs.skip(k as int),
            decrypted@ == dec.skip(k as int),
            all_present(dec),
            out@.len() == k,
            forall|i: int|
                0 <= i < k ==> (#[trigger] out@[i]).id == msgs[i].id
                    && out@[i].state == msgs[i].state
                    && out@[i].checksum == msgs[i].checksum && out@[i].headers@ == msgs[i].headers@
                        && out@[i].offset
                    == msgs[i].offset && out@[i].timestamp == msgs[i].timestamp && out@[i].payload@
                    == dec[i]->Some_0@,
        decreases n - k,
    {
        let m = messages.remove(0);
        let d = decrypted.remove(0);
        proof {
            assert(m == msgs[k as int]);
            assert(d == dec[k as int]);
            assert(messages@ =~= msgs.skip(k + 1));
            assert(decrypted@ =~= dec.skip(k + 1));
        }
        let payload = match d {
            Some(p) => p,
            None => Vec::new(),
        };
        out.push(
            PolledMessage {
                id: m.id,
                state: m.state,
                offset: m.offset,
                timestamp: m.timestamp,
                checksum: m.checksum,
                headers: m.headers,
                payload,
            },
        );
        k = k + 1;
    }
    Ok(out)
}

} // verus!
