//! Outbound transport: connection lifecycle and a bounded FIFO message
//! queue with a drop-on-full policy.
//!
//! The underlying publish/subscribe session lives outside this crate.  The
//! caller performs each handshake, publish and disconnect against the real
//! session and reports the outcome; the functions here decide what each
//! outcome means for the transport state and hold the queue invariants.

use vstd::prelude::*;
use vstd::string::*;

use crate::text::{
    dec_rep, first_false, first_true, lemma_first_false, lemma_first_false_beyond,
    lemma_first_true, lemma_first_true_beyond, u64_to_dec_string,
};

verus! {

/// Everything that can go wrong in the transport layer.
#[derive(Clone, Copy, Debug, PartialEq, Eq, Structural)]
pub enum TransportError {
    /// Every allowed connection attempt failed.
    ConnectionFailed,
    /// A publish was requested while no session is active.
    NotConnected,
    /// The active session rejected a publish.
    PublishFailed,
    /// The session failed to acknowledge a disconnect.
    DisconnectFailed,
    /// An enqueue was rejected because the queue is at capacity.
    QueueFull,
}

/// One outbound message: destination topic, payload text and
/// quality-of-service level.  FIFO order in the queue is arrival order.
pub struct Message {
    pub topic: String,
    pub payload: String,
    pub qos: u8,
}

/// The mathematical value of a queued message.
pub struct MessageView {
    pub topic: Seq<char>,
    pub payload: Seq<char>,
    pub qos: u8,
}

impl View for Message {
    type V = MessageView;

    open spec fn view(&self) -> MessageView {
        MessageView { topic: self.topic@, payload: self.payload@, qos: self.qos }
    }
}

/// Transport state: session bookkeeping plus the bounded outbound queue.
pub struct InventoryTransport {
    /// True only after an acknowledged session handshake.
    pub connected: bool,
    /// The broker address the session is created against.
    pub url: String,
    /// The session identifier the caller registers with the broker.
    pub client_id: String,
    /// Fixed delay the caller is asked to wait between failed attempts.
    pub retry_delay_secs: u64,
    /// Bound on underlying handshake attempts per `connect` call.
    pub max_retries: u8,
    pub message_queue: Vec<Message>,
    /// Mirror of the queue's current length.
    pub queue_length: usize,
    /// Capacity bound: the queue never grows beyond this.
    pub max_queue_length: usize,
}

impl InventoryTransport {
    /// The queued messages, oldest first.
    pub open spec fn queue(&self) -> Seq<MessageView> {
        self.message_queue@.map_values(|m: Message| m@)
    }

    /// Queue well-formedness: the public length field mirrors the queue and
    /// the length never exceeds the configured capacity.
    pub open spec fn wf(&self) -> bool {
        &&& self.queue_length == self.queue().len()
        &&& self.queue().len() <= self.max_queue_length
    }

    /// The configuration fields (everything but the session flag and the
    /// queue) agree between two states.
    pub open spec fn same_config(a: Self, b: Self) -> bool {
        &&& a.url == b.url
        &&& a.client_id == b.client_id
        &&& a.retry_delay_secs == b.retry_delay_secs
        &&& a.max_retries == b.max_retries
        &&& a.max_queue_length == b.max_queue_length
    }

    /// The queue and its mirrored length agree between two states.
    pub open spec fn same_queue(a: Self, b: Self) -> bool {
        &&& a.queue() == b.queue()
        &&& a.queue_length == b.queue_length
    }

    /// Builds a disconnected transport for the given broker address with an
    /// empty queue and the default retry and capacity bounds.
    pub fn new(server: String, port: u16, clientid: String) -> (r: Self)
        ensures
            r.wf(),
            !r.connected,
            r.url@ == "tcp://"@ + server@ + ":"@ + dec_rep(port as int),
            r.client_id == clientid,
            r.retry_delay_secs == 1,
            r.max_retries == 5,
            r.queue() == Seq::<MessageView>::empty(),
            r.queue_length == 0,
            r.max_queue_length == 100,
    {
        let mut url = String::from_str("tcp://");
        url.append(server.as_str());
        url.append(":");
        let port_str = u64_to_dec_string(port as u64);
        url.append(port_str.as_str());
        let r = InventoryTransport {
            connected: false,
            url,
            client_id: clientid,
            retry_delay_secs: 1,
            max_retries: 5,
            message_queue: Vec::new(),
            queue_length: 0,
            max_queue_length: 100,
        };
        assert(r.queue() =~= Seq::<MessageView>::empty());
        r
    }

    /// Notes the outcome of one underlying handshake attempt that the caller
    /// performed against the real session.
    pub fn record_attempt(&mut self, handshake_ok: bool)
        ensures
            final(self).connected == (old(self).connected || handshake_ok),
            Self::same_config(*final(self), *old(self)),
            Self::same_queue(*final(self), *old(self)),
    {
        if handshake_ok {
            self.connected = true;
        }
    }

    /// Runs the bounded retry policy over the handshake outcomes the session
    /// would produce, one per allowed attempt.  An already connected
    /// transport short-circuits with zero attempts; otherwise attempts are
    /// consumed in order until the first success, and exhausting
    /// `max_retries` failures yields a connection-failed error.  On success
    /// the result carries the number of attempts that were performed.
    ///
    /// The caller that owns the real session performs one handshake per
    /// consumed outcome and waits `retry_delay_secs` after each failure.
    pub fn connect(&mut self, attempt_results: &Vec<bool>) -> (r: Result<usize, TransportError>)
        requires
            attempt_results@.len() >= old(self).max_retries,
        ensures
            Self::same_config(*final(self), *old(self)),
            Self::same_queue(*final(self), *old(self)),
            old(self).connected ==> r == Ok::<usize, TransportError>(0usize) && *final(self)
                == *old(self),
            ({
                let tried = attempt_results@.take(old(self).max_retries as int);
                &&& (!old(self).connected && first_true(tried) < old(self).max_retries) ==> {
                    &&& r == Ok::<usize, TransportError>((first_true(tried) + 1) as usize)
                    &&& final(self).connected
                }
                &&& (!old(self).connected && first_true(tried) >= old(self).max_retries) ==> {
                    &&& r == Err::<usize, TransportError>(TransportError::ConnectionFailed)
                    &&& *final(self) == *old(self)
                }
            }),
    {
        if self.connected {
            return Ok(0);
        }
        let ghost tried = attempt_results@.take(self.max_retries as int);
        let max = self.max_retries;
        let mut i: u8 = 0;
        while i < max
            invariant
                *self == *old(self),
                !self.connected,
                i <= max,
                max == self.max_retries,
                attempt_results@.len() >= max,
                tried == attempt_results@.take(max as int),
                forall|j: int| 0 <= j < i ==> !attempt_results@[j],
            decreases max - i,
        {
            if attempt_results[i as usize] {
                self.connected = true;
                proof {
                    assert(tried.len() == max);
                    assert forall|j: int| 0 <= j < i implies !tried[j] by {
                        assert(!attempt_results@[j]);
                    }
                    lemma_first_true(tried);
                    assert(tried[i as int]);
                    lemma_first_true_beyond(tried, i as int);
                    assert(first_true(tried) == i);
                }
                return Ok((i + 1) as usize);
            }
            i += 1;
        }
        proof {
            assert(tried.len() == max);
            assert forall|j: int| 0 <= j < max implies !tried[j] by {
                assert(!attempt_results@[j]);
            }
            lemma_first_true(tried);
            lemma_first_true_beyond(tried, max as int);
        }
        Err(TransportError::ConnectionFailed)
    }

    /// Disconnect is idempotent: with no active session it succeeds without
    /// touching anything.  With an active session the caller performs the
    /// real disconnect and reports whether the session acknowledged it; the
    /// transport only leaves the connected state on an acknowledged
    /// disconnect, and surfaces the session's failure otherwise.
    pub fn disconnect(&mut self, session_ok: bool) -> (r: Result<(), TransportError>)
        ensures
            Self::same_config(*final(self), *old(self)),
            Self::same_queue(*final(self), *old(self)),
            !old(self).connected ==> r == Ok::<(), TransportError>(()) && *final(self) == *old(
                self,
            ),
            old(self).connected && session_ok ==> r == Ok::<(), TransportError>(())
                && !final(self).connected,
            old(self).connected && !session_ok ==> r == Err::<(), TransportError>(
                TransportError::DisconnectFailed,
            ) && *final(self) == *old(self),
    {
        if !self.connected {
            Ok(())
        } else if session_ok {
            self.connected = false;
            Ok(())
        } else {
            Err(TransportError::DisconnectFailed)
        }
    }

    /// Fire-and-forget publish: fails when no session is active, and
    /// otherwise reports exactly what the session did with the send (the
    /// caller performs the real publish and hands the outcome in).  A failed
    /// send is never queued here; callers decide whether to enqueue.
    #[allow(unused_variables)]
    pub fn send_message(&self, topic: &String, message: &String, publish_ok: bool) -> (r: Result<
        (),
        TransportError,
    >)
        ensures
            !self.connected ==> r == Err::<(), TransportError>(TransportError::NotConnected),
            self.connected && publish_ok ==> r == Ok::<(), TransportError>(()),
            self.connected && !publish_ok ==> r == Err::<(), TransportError>(
                TransportError::PublishFailed,
            ),
    {
        if !self.connected {
            Err(TransportError::NotConnected)
        } else if publish_ok {
            Ok(())
        } else {
            Err(TransportError::PublishFailed)
        }
    }

    /// The oldest queued message, if any, as (topic, payload, qos).
    pub fn front_message(&self) -> (r: Option<(String, String, u8)>)
        ensures
            self.queue().len() == 0 ==> r is None,
            self.queue().len() > 0 ==> (r matches Some(m) && m.0@ == self.queue()[0].topic && m.1@
                == self.queue()[0].payload && m.2 == self.queue()[0].qos),
    {
        if self.message_queue.len() == 0 {
            None
        } else {
            let m = &self.message_queue[0];
            Some((m.topic.clone(), m.payload.clone(), m.qos))
        }
    }

    /// One drain step: the caller has attempted to publish the front
    /// message and reports the outcome.  On a successful publish the front
    /// message leaves the queue; on any failure the queue is untouched and
    /// the publish error is surfaced.  An empty queue is a completed drain.
    pub fn drain_step(&mut self, publish_ok: bool) -> (r: Result<bool, TransportError>)
        requires
            old(self).wf(),
        ensures
            final(self).wf(),
            Self::same_config(*final(self), *old(self)),
            final(self).connected == old(self).connected,
            old(self).queue().len() == 0 ==> r == Ok::<bool, TransportError>(false) && *final(self)
                == *old(self),
            old(self).queue().len() > 0 && !old(self).connected ==> r == Err::<
                bool,
                TransportError,
            >(TransportError::NotConnected) && *final(self) == *old(self),
            old(self).queue().len() > 0 && old(self).connected && publish_ok ==> r == Ok::<
                bool,
                TransportError,
            >(true) && final(self).queue() == old(self).queue().skip(1),
            old(self).queue().len() > 0 && old(self).connected && !publish_ok ==> r == Err::<
                bool,
                TransportError,
            >(TransportError::PublishFailed) && *final(self) == *old(self),
    {
        if self.message_queue.len() == 0 {
            return Ok(false);
        }
        let send_result = self.send_message(
            &self.message_queue[0].topic,
            &self.message_queue[0].payload,
            publish_ok,
        );
        match send_result {
            Ok(()) => {
                self.message_queue.remove(0);
                self.queue_length = self.message_queue.len();
                assert(self.queue() =~= old(self).queue().skip(1));
                Ok(true)
            },
            Err(e) => Err(e),
        }
    }

    /// Drains the queue: attempts to publish every queued message in FIFO
    /// order, given one session outcome per queued message.  The drain stops
    /// at the first failed publish, which stays queued along with everything
    /// behind it, and that failure is returned; a complete drain returns the
    /// number of messages published.
    pub fn process_message_queue(&mut self, publish_ok: &Vec<bool>) -> (r: Result<
        u64,
        TransportError,
    >)
        requires
            old(self).wf(),
            publish_ok@.len() >= old(self).queue().len(),
        ensures
            final(self).wf(),
            Self::same_config(*final(self), *old(self)),
            final(self).connected == old(self).connected,
            old(self).queue().len() == 0 ==> r == Ok::<u64, TransportError>(0) && *final(self)
                == *old(self),
            old(self).queue().len() > 0 && !old(self).connected ==> r == Err::<
                u64,
                TransportError,
            >(TransportError::NotConnected) && Self::same_queue(*final(self), *old(self)),
            old(self).connected ==> ({
                let n = old(self).queue().len() as int;
                let k = first_false(publish_ok@.take(n));
                &&& final(self).queue() == old(self).queue().skip(k)
                &&& k == n ==> r == Ok::<u64, TransportError>(n as u64)
                &&& k < n ==> r == Err::<u64, TransportError>(TransportError::PublishFailed)
            }),
    {
        let ghost n = old(self).queue().len() as int;
        let ghost outcomes = publish_ok@.take(n);
        let supply = publish_ok.len();
        let mut i: usize = 0;
        while self.message_queue.len() > 0
            invariant
                self.wf(),
                Self::same_config(*self, *old(self)),
                self.connected == old(self).connected,
                i <= n,
                n == old(self).queue().len(),
                supply == publish_ok@.len(),
                supply >= n,
                outcomes == publish_ok@.take(n),
                self.queue() == old(self).queue().skip(i as int),
                forall|j: int| 0 <= j < i ==> publish_ok@[j],
                i == 0 ==> *self == *old(self),
                i > 0 ==> old(self).connected,
            decreases self.message_queue@.len(),
        {
            proof {
                assert(self.queue().len() == old(self).queue().skip(i as int).len());
                assert(i < n);
            }
            let ok = publish_ok[i];
            let step = self.drain_step(ok);
            match step {
                Ok(_) => {
                    proof {
                        assert(old(self).queue().skip(i as int).skip(1) =~= old(self).queue().skip(
                            i as int + 1,
                        ));
                    }
                    i += 1;
                },
                Err(e) => {
                    proof {
                        if old(self).connected {
                            lemma_first_false(outcomes);
                            assert(outcomes[i as int] == publish_ok@[i as int]);
                            assert(!publish_ok@[i as int]);
                            assert forall|j: int| 0 <= j < i implies outcomes[j] by {
                                assert(publish_ok@[j]);
                            }
                            lemma_first_false_beyond(outcomes, i as int);
                            assert(first_false(outcomes) == i);
                        } else {
                            assert(i == 0);
                            assert(old(self).queue().skip(0) =~= old(self).queue());
                        }
                    }
                    return Err(e);
                },
            }
        }
        proof {
            assert(self.queue().len() == old(self).queue().skip(i as int).len());
            assert(i == n);
            if old(self).connected {
                assert forall|j: int| 0 <= j < n implies outcomes[j] by {
                    assert(publish_ok@[j]);
                }
                lemma_first_false(outcomes);
                lemma_first_false_beyond(outcomes, n);
                assert(first_false(outcomes) == n);
            }
            if n == 0 {
                assert(old(self).queue().skip(0) =~= old(self).queue());
            }
        }
        Ok(i as u64)
    }

    /// Appends a message to the queue tail if there is room and returns the
    /// new length; at capacity the message is rejected and the queue is not
    /// touched.
    pub fn queue_message(&mut self, message: String, topic: String, qos: u8) -> (r: Result<
        u64,
        TransportError,
    >)
        requires
            old(self).wf(),
        ensures
            final(self).wf(),
            final(self).connected == old(self).connected,
            final(self).url == old(self).url,
            final(self).client_id == old(self).client_id,
            final(self).retry_delay_secs == old(self).retry_delay_secs,
            final(self).max_retries == old(self).max_retries,
            final(self).max_queue_length == old(self).max_queue_length,
            old(self).queue_length < old(self).max_queue_length ==> {
                &&& r == Ok::<u64, TransportError>((old(self).queue_length + 1) as u64)
                &&& final(self).queue() == old(self).queue().push(
                    MessageView { topic: topic@, payload: message@, qos: qos },
                )
                &&& final(self).queue_length == old(self).queue_length + 1
            },
            old(self).queue_length >= old(self).max_queue_length ==> {
                &&& r == Err::<u64, TransportError>(TransportError::QueueFull)
                &&& final(self).queue() == old(self).queue()
                &&& final(self).queue_length == old(self).queue_length
            },
    {
        if self.queue_length < self.max_queue_length {
            let new_message = Message { topic, payload: message, qos };
            self.message_queue.push(new_message);
            self.queue_length = self.message_queue.len();
            Ok(self.queue_length as u64)
        } else {
            Err(TransportError::QueueFull)
        }
    }

    /// Clears the queue unconditionally, returning it to length zero.
    pub fn flush_queue(&mut self)
        ensures
            final(self).wf(),
            final(self).queue() == Seq::<MessageView>::empty(),
            final(self).queue_length == 0,
            final(self).connected == old(self).connected,
            final(self).url == old(self).url,
            final(self).client_id == old(self).client_id,
            final(self).retry_delay_secs == old(self).retry_delay_secs,
            final(self).max_retries == old(self).max_retries,
            final(self).max_queue_length == old(self).max_queue_length,
    {
        self.message_queue.clear();
        self.queue_length = self.message_queue.len();
        assert(self.queue() =~= Seq::<MessageView>::empty());
    }
}

} // verus!
