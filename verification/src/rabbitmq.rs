use vstd::prelude::*;

use crate::error::Error;
use crate::strutil::str_eq;

verus! {

/// One message as published: its payload text and its header map, which
/// carries the propagated trace context as string key/value pairs.
#[derive(Debug)]
pub struct Message {
    pub payload: String,
    pub headers: Vec<(String, String)>,
}

/// The header key under which the trace context travels.
pub open spec fn spec_trace_key() -> Seq<char> {
    "traceparent"@
}

/// The trace context a header map carries: the value under the trace
/// key, searching front to back.
pub open spec fn spec_headers_trace(headers: Seq<(String, String)>) -> Option<Seq<char>>
    decreases headers.len(),
{
    if headers.len() == 0 {
        None
    } else if headers[0].0@ == spec_trace_key() {
        Some(headers[0].1@)
    } else {
        spec_headers_trace(headers.drop_first())
    }
}

/// Serialises an active trace context into a fresh string-keyed header
/// map; an absent context yields no headers.
pub fn inject_trace_context(trace: &Option<String>) -> (r: Vec<(String, String)>)
    ensures
        spec_headers_trace(r@) == match trace {
            Some(t) => Some(t@),
            None => None::<Seq<char>>,
        },
{
    let mut headers: Vec<(String, String)> = Vec::new();
    match trace {
        Some(t) => {
            headers.push((String::from_str("traceparent"), t.clone()));
            proof {
                assert(headers@[0].0@ == spec_trace_key());
            }
        },
        None => {},
    }
    headers
}

/// Parses a string-keyed header map back into a trace context; a map
/// without the trace key yields none, and the caller then starts a
/// fresh root context.
pub fn extract_trace_context(headers: &Vec<(String, String)>) -> (r: Option<String>)
    ensures
        match r {
            Some(t) => spec_headers_trace(headers@) == Some(t@),
            None => spec_headers_trace(headers@) is None,
        },
{
    let n = headers.len();
    let mut i: usize = 0;
    proof {
        assert(headers@.skip(0) =~= headers@);
    }
    while i < n
        invariant
            0 <= i <= n,
            n == headers@.len(),
            spec_headers_trace(headers@) == spec_headers_trace(headers@.skip(i as int)),
        decreases n - i,
    {
        proof {
            assert(headers@.skip(i as int)[0] == headers@[i as int]);
            assert(headers@.skip(i as int).drop_first() =~= headers@.skip(i as int + 1));
        }
        if str_eq(headers[i].0.as_str(), "traceparent") {
            return Some(headers[i].1.clone());
        }
        i = i + 1;
    }
    proof {
        assert(headers@.skip(n as int) =~= Seq::<(String, String)>::empty());
    }
    None
}

/// Whether a binding routes messages with this key on this exchange to
/// this queue.
pub open spec fn spec_is_bound(
    bindings: Seq<(String, String, String)>,
    exchange: Seq<char>,
    queue: Seq<char>,
    key: Seq<char>,
) -> bool {
    exists|i: int|
        0 <= i < bindings.len() && (#[trigger] bindings[i]).0@ == exchange && bindings[i].1@
            == queue && bindings[i].2@ == key
}

/// Whether a name is among the declared names.
pub open spec fn spec_has_name(names: Seq<String>, name: Seq<char>) -> bool {
    exists|i: int| 0 <= i < names.len() && (#[trigger] names[i])@ == name
}

/// Whether a queue with this name is declared.
pub open spec fn spec_has_queue(queues: Seq<(String, Vec<Message>)>, name: Seq<char>) -> bool {
    exists|i: int| 0 <= i < queues.len() && (#[trigger] queues[i]).0@ == name
}

/// The broker topology and its buffered traffic: durable direct-routing
/// exchanges, durable queues, and bindings.  A message routes to exactly
/// the queues whose binding key on its exchange equals its routing key.
/// Declarations are idempotent: declaring an existing exchange or queue
/// again changes nothing, and an existing queue keeps its messages.
pub struct Broker {
    exchanges: Vec<String>,
    queues: Vec<(String, Vec<Message>)>,
    bindings: Vec<(String, String, String)>,
}

impl Broker {
    pub closed spec fn spec_exchanges(&self) -> Seq<String> {
        self.exchanges@
    }

    pub closed spec fn spec_queues(&self) -> Seq<(String, Vec<Message>)> {
        self.queues@
    }

    pub closed spec fn spec_bindings(&self) -> Seq<(String, String, String)> {
        self.bindings@
    }

    /// Queue names are unique, so a name denotes one buffer.
    pub open spec fn wf(&self) -> bool {
        forall|i: int, j: int|
            #![trigger self.spec_queues()[i], self.spec_queues()[j]]
            0 <= i < j < self.spec_queues().len() ==> self.spec_queues()[i].0@
                != self.spec_queues()[j].0@
    }

    pub fn new() -> (b: Self)
        ensures
            b.spec_exchanges() == Seq::<String>::empty(),
            b.spec_queues() == Seq::<(String, Vec<Message>)>::empty(),
            b.spec_bindings() == Seq::<(String, String, String)>::empty(),
            b.wf(),
    {
        Broker { exchanges: Vec::new(), queues: Vec::new(), bindings: Vec::new() }
    }

    fn has_exchange(&self, name: &str) -> (r: bool)
        ensures
            r == spec_has_name(self.spec_exchanges(), name@),
    {
        let n = self.exchanges.len();
        let mut i: usize = 0;
        while i < n
            invariant
                0 <= i <= n,
                n == self.spec_exchanges().len(),
                forall|k: int| 0 <= k < i ==> (#[trigger] self.spec_exchanges()[k])@ != name@,
            decreases n - i,
        {
            if str_eq(self.exchanges[i].as_str(), name) {
                return true;
            }
            i = i + 1;
        }
        false
    }

    fn find_queue(&self, name: &str) -> (r: Option<usize>)
        ensures
            match r {
                Some(i) => 0 <= i < self.spec_queues().len() && self.spec_queues()[i as int].0@
                    == name@,
                None => !spec_has_queue(self.spec_queues(), name@),
            },
    {
        let n = self.queues.len();
        let mut i: usize = 0;
        while i < n
            invariant
                0 <= i <= n,
                n == self.spec_queues().len(),
                forall|k: int| 0 <= k < i ==> (#[trigger] self.spec_queues()[k]).0@ != name@,
            decreases n - i,
        {
            if str_eq(self.queues[i].0.as_str(), name) {
                return Some(i);
            }
            i = i + 1;
        }
        None
    }

    fn is_bound(&self, exchange: &str, queue: &String, key: &str) -> (r: bool)
        ensures
            r == spec_is_bound(self.spec_bindings(), exchange@, queue@, key@),
    {
        let n = self.bindings.len();
        let mut i: usize = 0;
        while i < n
            invariant
                0 <= i <= n,
                n == self.spec_bindings().len(),
                forall|k: int|
                    0 <= k < i ==> !((#[trigger] self.spec_bindings()[k]).0@ == exchange@
                        && self.spec_bindings()[k].1@ == queue@ && self.spec_bindings()[k].2@
                        == key@),
            decreases n - i,
        {
            if str_eq(self.bindings[i].0.as_str(), exchange) && str_eq(
                self.bindings[i].1.as_str(),
                queue.as_str(),
            ) && str_eq(self.bindings[i].2.as_str(), key) {
                return true;
            }
            i = i + 1;
        }
        false
    }

    /// Declares a durable direct exchange.  Idempotent: an existing
    /// exchange of the same name is left as it is.
    pub fn declare_exchange(&mut self, name: &str) -> (r: Result<(), Error>)
        requires
            old(self).wf(),
        ensures
            final(self).wf(),
            r is Ok,
            spec_has_name(final(self).spec_exchanges(), name@),
            spec_has_name(old(self).spec_exchanges(), name@) ==> *final(self) == *old(self),
            final(self).spec_queues() == old(self).spec_queues(),
            final(self).spec_bindings() == old(self).spec_bindings(),
            forall|e: Seq<char>|
                spec_has_name(old(self).spec_exchanges(), e) ==> spec_has_name(
                    final(self).spec_exchanges(),
                    e,
                ),
    {
        if self.has_exchange(name) {
            return Ok(());
        }
        let owned = String::from_str(name);
        self.exchanges.push(owned);
        proof {
            assert(self.spec_queues() == old(self).spec_queues());
            assert(self.spec_exchanges().last()@ == name@);
            assert forall|e: Seq<char>|
                spec_has_name(old(self).spec_exchanges(), e) implies spec_has_name(
                self.spec_exchanges(),
                e,
            ) by {
                let i = choose|i: int|
                    0 <= i < old(self).spec_exchanges().len() && (#[trigger] old(self).spec_exchanges()[i])@ == e;
                assert(self.spec_exchanges()[i]@ == e);
            }
        }
        Ok(())
    }

    /// Declares a durable queue.  Idempotent: an existing queue of the
    /// same name keeps its buffered messages.
    pub fn declare_queue(&mut self, name: &str) -> (r: Result<(), Error>)
        requires
            old(self).wf(),
        ensures
            final(self).wf(),
            r is Ok,
            spec_has_queue(final(self).spec_queues(), name@),
            spec_has_queue(old(self).spec_queues(), name@) ==> *final(self) == *old(self),
            !spec_has_queue(old(self).spec_queues(), name@) ==> {
                &&& final(self).spec_queues().len() == old(self).spec_queues().len() + 1
                &&& final(self).spec_queues().last().0@ == name@
                &&& final(self).spec_queues().last().1@ == Seq::<Message>::empty()
                &&& final(self).spec_queues().take(old(self).spec_queues().len() as int) == old(self).spec_queues()
            },
            final(self).spec_exchanges() == old(self).spec_exchanges(),
            final(self).spec_bindings() == old(self).spec_bindings(),
    {
        match self.find_queue(name) {
            Some(idx) => {
                proof {
                    assert(self.spec_queues()[idx as int].0@ == name@);
                }
                Ok(())
            },
            None => {
                let owned = String::from_str(name);
                let empty: Vec<Message> = Vec::new();
                self.queues.push((owned, empty));
                proof {
                    assert(self.spec_queues()[self.spec_queues().len() - 1].0@ == name@);
                    assert(self.spec_queues().take(old(self).spec_queues().len() as int) =~= old(self).spec_queues());
                    assert forall|i: int, j: int|
                        #![trigger self.spec_queues()[i], self.spec_queues()[j]]
                        0 <= i < j < self.spec_queues().len() implies self.spec_queues()[i].0@
                        != self.spec_queues()[j].0@ by {
                        if j < old(self).spec_queues().len() {
                        } else {
                            assert(self.spec_queues()[j].0@ == name@);
                            assert(old(self).spec_queues()[i].0@ != name@);
                        }
                    }
                }
                Ok(())
            },
        }
    }

    /// Binds a queue to an exchange under a routing key; both must be
    /// declared.  Idempotent: an existing identical binding is left as
    /// it is.
    pub fn bind_queue(&mut self, exchange: &str, queue: &str, key: &str) -> (r: Result<(), Error>)
        requires
            old(self).wf(),
        ensures
            final(self).wf(),
            final(self).spec_exchanges() == old(self).spec_exchanges(),
            final(self).spec_queues() == old(self).spec_queues(),
            (spec_has_name(old(self).spec_exchanges(), exchange@) && spec_has_queue(
                old(self).spec_queues(),
                queue@,
            )) ==> {
                &&& r is Ok
                &&& spec_is_bound(final(self).spec_bindings(), exchange@, queue@, key@)
                &&& forall|e: Seq<char>, q: Seq<char>, k: Seq<char>|
                    spec_is_bound(final(self).spec_bindings(), e, q, k) == (spec_is_bound(
                        old(self).spec_bindings(),
                        e,
                        q,
                        k,
                    ) || (e == exchange@ && q == queue@ && k == key@))
            },
            !(spec_has_name(old(self).spec_exchanges(), exchange@) && spec_has_queue(
                old(self).spec_queues(),
                queue@,
            )) ==> (r matches Err(e) && e is Internal) && *final(self) == *old(self),
    {
        if !self.has_exchange(exchange) {
            return Err(Error::Internal(String::from_str("exchange is not declared")));
        }
        match self.find_queue(queue) {
            None => Err(Error::Internal(String::from_str("queue is not declared"))),
            Some(_) => {
                let owned_queue = String::from_str(queue);
                if self.is_bound(exchange, &owned_queue, key) {
                    proof {
                        assert forall|e: Seq<char>, q: Seq<char>, k: Seq<char>|
                            spec_is_bound(self.spec_bindings(), e, q, k) == (spec_is_bound(
                                old(self).spec_bindings(),
                                e,
                                q,
                                k,
                            ) || (e == exchange@ && q == queue@ && k == key@)) by {
                            if e == exchange@ && q == queue@ && k == key@ {
                                assert(spec_is_bound(self.spec_bindings(), e, q, k));
                            }
                        }
                    }
                    return Ok(());
                }
                let b = (String::from_str(exchange), owned_queue, String::from_str(key));
                self.bindings.push(b);
                proof {
                    let nb = self.spec_bindings();
                    let ob = old(self).spec_bindings();
                    assert forall|e: Seq<char>, q: Seq<char>, k: Seq<char>|
                        spec_is_bound(nb, e, q, k) == (spec_is_bound(ob, e, q, k) || (e
                            == exchange@ && q == queue@ && k == key@)) by {
                        if spec_is_bound(ob, e, q, k) {
                            let i = choose|i: int|
                                0 <= i < ob.len() && (#[trigger] ob[i]).0@ == e && ob[i].1@ == q
                                    && ob[i].2@ == k;
                            assert(nb[i].0@ == e && nb[i].1@ == q && nb[i].2@ == k);
                        }
                        if e == exchange@ && q == queue@ && k == key@ {
                            assert(nb.last().0@ == e && nb.last().1@ == q && nb.last().2@ == k);
                        }
                        if spec_is_bound(nb, e, q, k) {
                            let i = choose|i: int|
                                0 <= i < nb.len() && (#[trigger] nb[i]).0@ == e && nb[i].1@ == q
                                    && nb[i].2@ == k;
                            if i < ob.len() {
                                assert(ob[i].0@ == e && ob[i].1@ == q && ob[i].2@ == k);
                            }
                        }
                    }
                }
                Ok(())
            },
        }
    }

    /// Declares a queue and binds it to the exchange under its own name,
    /// the shape this topology uses for every queue.
    pub fn declare_and_bind_queue(&mut self, queue: &str, exchange: &str) -> (r: Result<(), Error>)
        requires
            old(self).wf(),
        ensures
            final(self).wf(),
            spec_has_name(old(self).spec_exchanges(), exchange@) ==> {
                &&& r is Ok
                &&& spec_has_queue(final(self).spec_queues(), queue@)
                &&& spec_is_bound(final(self).spec_bindings(), exchange@, queue@, queue@)
            },
            r matches Err(e) ==> e is Internal && final(self).spec_bindings() == old(
                self,
            ).spec_bindings(),
            final(self).spec_exchanges() == old(self).spec_exchanges(),
            forall|q: Seq<char>|
                spec_has_queue(old(self).spec_queues(), q) ==> spec_has_queue(
                    final(self).spec_queues(),
                    q,
                ),
            forall|e: Seq<char>, q: Seq<char>, k: Seq<char>|
                spec_is_bound(old(self).spec_bindings(), e, q, k) ==> spec_is_bound(
                    final(self).spec_bindings(),
                    e,
                    q,
                    k,
                ),
    {
        let ghost pre = *self;
        let r1 = self.declare_queue(queue);
        proof {
            assert forall|q: Seq<char>|
                spec_has_queue(pre.spec_queues(), q) implies spec_has_queue(
                self.spec_queues(),
                q,
            ) by {
                let i = choose|i: int|
                    0 <= i < pre.spec_queues().len() && (#[trigger] pre.spec_queues()[i]).0@ == q;
                if !spec_has_queue(pre.spec_queues(), queue@) {
                    assert(self.spec_queues().take(pre.spec_queues().len() as int)[i]
                        == pre.spec_queues()[i]);
                    assert(self.spec_queues()[i].0@ == q);
                } else {
                    assert(self.spec_queues()[i].0@ == q);
                }
            }
        }
        match r1 {
            Ok(_) => {},
            Err(e) => {
                return Err(e);
            },
        }
        self.bind_queue(exchange, queue, queue)
    }

    /// Declares every queue in the list and binds each to the exchange
    /// under its own name.
    pub fn declare_and_bind_queues(&mut self, queues: &Vec<String>, exchange: &str) -> (r: Result<
        (),
        Error,
    >)
        requires
            old(self).wf(),
        ensures
            final(self).wf(),
            final(self).spec_exchanges() == old(self).spec_exchanges(),
            spec_has_name(old(self).spec_exchanges(), exchange@) ==> {
                &&& r is Ok
                &&& forall|qi: int|
                    0 <= qi < queues@.len() ==> spec_has_queue(
                        final(self).spec_queues(),
                        (#[trigger] queues@[qi])@,
                    ) && spec_is_bound(
                        final(self).spec_bindings(),
                        exchange@,
                        queues@[qi]@,
                        queues@[qi]@,
                    )
            },
    {
        let n = queues.len();
        let mut i: usize = 0;
        while i < n
            invariant
                0 <= i <= n,
                n == queues@.len(),
                self.wf(),
                self.spec_exchanges() == old(self).spec_exchanges(),
                spec_has_name(old(self).spec_exchanges(), exchange@) ==> forall|qi: int|
                    0 <= qi < i ==> spec_has_queue(
                        self.spec_queues(),
                        (#[trigger] queues@[qi])@,
                    ) && spec_is_bound(
                        self.spec_bindings(),
                        exchange@,
                        queues@[qi]@,
                        queues@[qi]@,
                    ),
            decreases n - i,
        {
            match self.declare_and_bind_queue(queues[i].as_str(), exchange) {
                Ok(_) => {},
                Err(e) => {
                    return Err(e);
                },
            }
            i = i + 1;
        }
        Ok(())
    }

    /// Publishes a message with persistent delivery on the exchange: it
    /// is appended to exactly the queues bound under the routing key,
    /// with the caller's trace context injected into its headers.  An
    /// undeclared exchange is an error and nothing is delivered.
    pub fn publish_message(
        &mut self,
        exchange: &str,
        routing_key: &str,
        payload: String,
        trace: &Option<String>,
    ) -> (r: Result<(), Error>)
        requires
            old(self).wf(),
        ensures
            final(self).wf(),
            final(self).spec_exchanges() == old(self).spec_exchanges(),
            final(self).spec_bindings() == old(self).spec_bindings(),
            !spec_has_name(old(self).spec_exchanges(), exchange@) ==> (r matches Err(e)
                && e is Internal) && *final(self) == *old(self),
            spec_has_name(old(self).spec_exchanges(), exchange@) ==> {
                &&& r is Ok
                &&& final(self).spec_queues().len() == old(self).spec_queues().len()
                &&& forall|qi: int|
                    0 <= qi < old(self).spec_queues().len() ==> (#[trigger] final(self).spec_queues()[qi]).0@ == old(self).spec_queues()[qi].0@
                &&& forall|qi: int|
                    0 <= qi < old(self).spec_queues().len() && spec_is_bound(
                        old(self).spec_bindings(),
                        exchange@,
                        old(self).spec_queues()[qi].0@,
                        routing_key@,
                    ) ==> {
                        &&& (#[trigger] final(self).spec_queues()[qi]).1@.len() == old(self).spec_queues()[qi].1@.len() + 1
                        &&& final(self).spec_queues()[qi].1@.take(
                            old(self).spec_queues()[qi].1@.len() as int,
                        ) == old(self).spec_queues()[qi].1@
                        &&& final(self).spec_queues()[qi].1@.last().payload@ == payload@
                        &&& spec_headers_trace(final(self).spec_queues()[qi].1@.last().headers@)
                            == (match trace {
                            Some(t) => Some(t@),
                            None => None::<Seq<char>>,
                        })
                    }
                &&& forall|qi: int|
                    0 <= qi < old(self).spec_queues().len() && !spec_is_bound(
                        old(self).spec_bindings(),
                        exchange@,
                        old(self).spec_queues()[qi].0@,
                        routing_key@,
                    ) ==> (#[trigger] final(self).spec_queues()[qi]) == old(self).spec_queues()[qi]
            },
    {
        if !self.has_exchange(exchange) {
            return Err(Error::Internal(String::from_str("exchange is not declared")));
        }
        let n = self.queues.len();
        let mut qi: usize = 0;
        while qi < n
            invariant
                0 <= qi <= n,
                n == self.spec_queues().len(),
                n == old(self).spec_queues().len(),
                old(self).wf(),
                self.spec_exchanges() == old(self).spec_exchanges(),
                self.spec_bindings() == old(self).spec_bindings(),
                forall|k: int|
                    0 <= k < n ==> (#[trigger] self.spec_queues()[k]).0@ == old(self).spec_queues()[k].0@,
                forall|k: int| qi <= k < n ==> (#[trigger] self.spec_queues()[k]) == old(self).spec_queues()[k],
                forall|k: int|
                    0 <= k < qi && spec_is_bound(
                        old(self).spec_bindings(),
                        exchange@,
                        old(self).spec_queues()[k].0@,
                        routing_key@,
                    ) ==> {
                        &&& (#[trigger] self.spec_queues()[k]).1@.len() == old(self).spec_queues()[k].1@.len() + 1
                        &&& self.spec_queues()[k].1@.take(
                            old(self).spec_queues()[k].1@.len() as int,
                        ) == old(self).spec_queues()[k].1@
                        &&& self.spec_queues()[k].1@.last().payload@ == payload@
                        &&& spec_headers_trace(self.spec_queues()[k].1@.last().headers@) == (
                        match trace {
                            Some(t) => Some(t@),
                            None => None::<Seq<char>>,
                        })
                    },
                forall|k: int|
                    0 <= k < qi && !spec_is_bound(
                        old(self).spec_bindings(),
                        exchange@,
                        old(self).spec_queues()[k].0@,
                        routing_key@,
                    ) ==> (#[trigger] self.spec_queues()[k]) == old(self).spec_queues()[k],
            decreases n - qi,
        {
            let bound = self.is_bound(exchange, &self.queues[qi].0, routing_key);
            if bound {
                let headers = inject_trace_context(trace);
                let msg = Message { payload: clone_string(&payload), headers };
                let (name, mut msgs) = self.queues.remove(qi);
                msgs.push(msg);
                proof {
                    assert(msgs@.take(old(self).spec_queues()[qi as int].1@.len() as int)
                        =~= old(self).spec_queues()[qi as int].1@);
                }
                self.queues.insert(qi, (name, msgs));
            }
            qi = qi + 1;
        }
        Ok(())
    }

    /// Takes the next delivery off the named queue, oldest first; an
    /// undeclared queue is an error, an empty queue yields nothing.
    pub fn consume_next(&mut self, queue: &str) -> (r: Result<Option<Message>, Error>)
        requires
            old(self).wf(),
        ensures
            final(self).wf(),
            final(self).spec_exchanges() == old(self).spec_exchanges(),
            final(self).spec_bindings() == old(self).spec_bindings(),
            !spec_has_queue(old(self).spec_queues(), queue@) ==> (r matches Err(e) && e is Internal)
                && *final(self) == *old(self),
            spec_has_queue(old(self).spec_queues(), queue@) ==> exists|qi: int|
                {
                    &&& 0 <= qi < old(self).spec_queues().len()
                    &&& (#[trigger] old(self).spec_queues()[qi]).0@ == queue@
                    &&& if old(self).spec_queues()[qi].1@.len() == 0 {
                        (r matches Ok(m) && m is None) && *final(self) == *old(self)
                    } else {
                        &&& r matches Ok(m) && m matches Some(d) && d == old(self).spec_queues()[qi].1@.first()
                        &&& final(self).spec_queues().len() == old(self).spec_queues().len()
                        &&& final(self).spec_queues()[qi].0 == old(self).spec_queues()[qi].0
                        &&& final(self).spec_queues()[qi].1@ == old(self).spec_queues()[qi].1@.drop_first()
                        &&& forall|k: int|
                            0 <= k < old(self).spec_queues().len() && k != qi ==> (#[trigger] final(self).spec_queues()[k]) == old(self).spec_queues()[k]
                    }
                },
    {
        match self.find_queue(queue) {
            None => Err(Error::Internal(String::from_str("queue is not declared"))),
            Some(qi) => {
                if self.queues[qi].1.len() == 0 {
                    return Ok(None);
                }
                let (name, mut msgs) = self.queues.remove(qi);
                let m = msgs.remove(0);
                self.queues.insert(qi, (name, msgs));
                proof {
                    assert(self.spec_queues()[qi as int].1@ =~= old(self).spec_queues()[qi as int].1@.drop_first());
                }
                Ok(Some(m))
            },
        }
    }
}

/// Clones a string value.
fn clone_string(s: &String) -> (r: String)
    ensures
        r == *s,
{
    s.clone()
}

} // verus!
