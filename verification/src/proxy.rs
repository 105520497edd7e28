//! One exchange through the proxy, step by step: what to do next, given
//! what the last step brought. The caller performs each action on its
//! connections and hooks, and hands back the event.

use vstd::prelude::*;
use vstd::string::*;
use vstd::utf8::*;
use crate::connection::ConnResult;
use crate::request::Request;
use crate::response::{Response, ResponseView};
use crate::target::{target_host, target_port};

verus! {

/// How an exchange ended.
#[derive(Clone, Copy, Debug, PartialEq, Eq, Structural)]
pub enum Ending {
    /// The client closed its connection before it sent a request.
    Clean,
    /// The exchange was given up: no request could be read, the reply could
    /// not be sent, or an event came out of turn.
    Abandoned,
    /// The reply was sent.
    Answered,
}

/// The stage at which an exchange stands.
#[derive(Debug)]
pub enum Exchange {
    /// A request is awaited from the client.
    AwaitRequest,
    /// The request hook has the request.
    MaybeIntercept,
    /// A connection to the origin of the request is being made.
    Dial(Request),
    /// The request is on its way to the origin.
    ForwardRequest,
    /// A response is awaited from the origin.
    AwaitResponse,
    /// The response hook has the response.
    MaybeInterceptResponse,
    /// The response is on its way to the client.
    Reply,
    /// The exchange is over, and the client connection with it.
    Closed(Ending),
}

/// What the last action brought.
#[derive(Debug)]
pub enum Event {
    /// The receive on the client connection ended.
    Received(ConnResult<Request>),
    /// The request hook returned: the request as it left it, and the
    /// response that it made in place of the origin's, if any.
    Intercepted(Request, Option<Response>),
    /// The dial ended; `true` where a connection stands.
    Dialed(bool),
    /// The send to the origin ended.
    Forwarded(ConnResult<()>),
    /// The receive on the origin connection ended.
    Answered(ConnResult<Response>),
    /// The response hook returned the response as it left it.
    Rewritten(Response),
    /// The send to the client ended.
    Replied(ConnResult<()>),
}

/// What to do next.
#[derive(Debug)]
pub enum Action {
    /// Call the request hook on the request.
    Intercept(Request),
    /// Dial the host at the port.
    Connect(String, u16),
    /// Send the request over the connection to the origin.
    Forward(Request),
    /// Receive a response from the origin.
    Await,
    /// Call the response hook on the response.
    Rewrite(Response),
    /// Send the response to the client.
    Reply(Response),
    /// Close the client connection.
    Close,
}

/// The response that the proxy makes where the origin gave none.
pub open spec fn bad_gateway() -> ResponseView {
    ResponseView {
        version: 1,
        status_code: 502,
        reason: "Bad Gateway"@,
        headers: Seq::empty(),
        body: None,
    }
}

/// Whether an action replies with the response of the proxy's own making.
pub open spec fn replies_bad_gateway(action: Action) -> bool {
    action matches Action::Reply(response) && response@ == bad_gateway()
}

/// Whether the target of a request names a host.
pub open spec fn resolvable(request: Request) -> bool {
    target_host(encode_utf8(request.path@)).len() > 0
}

/// Whether an action dials the host and port of the target of a request.
pub open spec fn dials(request: Request, action: Action) -> bool {
    &&& action matches Action::Connect(host, port)
    &&& encode_utf8(host@) == target_host(encode_utf8(request.path@))
    &&& port == target_port(encode_utf8(request.path@))
}

impl Exchange {
    /// The place of a stage in the order of the stages.
    pub open spec fn rank(self) -> nat {
        match self {
            Exchange::AwaitRequest => 0,
            Exchange::MaybeIntercept => 1,
            Exchange::Dial(_) => 2,
            Exchange::ForwardRequest => 3,
            Exchange::AwaitResponse => 4,
            Exchange::MaybeInterceptResponse => 5,
            Exchange::Reply => 6,
            Exchange::Closed(_) => 7,
        }
    }

    /// Whether an event is the one that a stage waits for.
    pub open spec fn expects(self, event: Event) -> bool {
        match (self, event) {
            (Exchange::AwaitRequest, Event::Received(_)) => true,
            (Exchange::MaybeIntercept, Event::Intercepted(_, _)) => true,
            (Exchange::Dial(_), Event::Dialed(_)) => true,
            (Exchange::ForwardRequest, Event::Forwarded(_)) => true,
            (Exchange::AwaitResponse, Event::Answered(_)) => true,
            (Exchange::MaybeInterceptResponse, Event::Rewritten(_)) => true,
            (Exchange::Reply, Event::Replied(_)) => true,
            _ => false,
        }
    }

    /// Whether `next` and `action` are what follows an event at a stage.
    ///
    /// A request that arrived whole goes to the request hook. Where the
    /// client closed instead, the exchange ends clean; where the receive
    /// failed, it is abandoned. A response from the hook is replied as it
    /// is, and no origin is dialled. Without one the origin of the target is
    /// dialled. A target without a host, a dial that fails, a send to the
    /// origin or a receive from it that fails: each is answered with 502. A
    /// response from the origin goes to the response hook and from there to
    /// the client. When the reply has ended the exchange closes: answered
    /// where the reply was sent, abandoned where it was not. An event that
    /// the stage does not wait for abandons the exchange, and one that
    /// comes after the end changes nothing.
    pub open spec fn follows(self, event: Event, next: Exchange, action: Action) -> bool {
        match (self, event) {
            (Exchange::AwaitRequest, Event::Received(ConnResult::Success(request))) => {
                next == Exchange::MaybeIntercept && action == Action::Intercept(request)
            },
            (Exchange::AwaitRequest, Event::Received(ConnResult::ZeroPacket)) => {
                next == Exchange::Closed(Ending::Clean) && action == Action::Close
            },
            (Exchange::MaybeIntercept, Event::Intercepted(_, Some(response))) => {
                next == Exchange::Reply && action == Action::Reply(response)
            },
            (Exchange::MaybeIntercept, Event::Intercepted(request, None)) => {
                if resolvable(request) {
                    next == Exchange::Dial(request) && dials(request, action)
                } else {
                    next == Exchange::Reply && replies_bad_gateway(action)
                }
            },
            (Exchange::Dial(request), Event::Dialed(true)) => {
                next == Exchange::ForwardRequest && action == Action::Forward(request)
            },
            (Exchange::Dial(_), Event::Dialed(false)) => {
                next == Exchange::Reply && replies_bad_gateway(action)
            },
            (Exchange::ForwardRequest, Event::Forwarded(ConnResult::Success(_))) => {
                next == Exchange::AwaitResponse && action == Action::Await
            },
            (Exchange::ForwardRequest, Event::Forwarded(_)) => {
                next == Exchange::Reply && replies_bad_gateway(action)
            },
            (Exchange::AwaitResponse, Event::Answered(ConnResult::Success(response))) => {
                next == Exchange::MaybeInterceptResponse && action == Action::Rewrite(response)
            },
            (Exchange::AwaitResponse, Event::Answered(_)) => {
                next == Exchange::Reply && replies_bad_gateway(action)
            },
            (Exchange::MaybeInterceptResponse, Event::Rewritten(response)) => {
                next == Exchange::Reply && action == Action::Reply(response)
            },
            (Exchange::Reply, Event::Replied(ConnResult::Success(_))) => {
                next == Exchange::Closed(Ending::Answered) && action == Action::Close
            },
            (Exchange::Closed(ending), _) => {
                next == Exchange::Closed(ending) && action == Action::Close
            },
            _ => next == Exchange::Closed(Ending::Abandoned) && action == Action::Close,
        }
    }

    /// An exchange at its start: the request is awaited.
    pub fn new() -> (exchange: Exchange)
        ensures
            exchange == Exchange::AwaitRequest,
    {
        Exchange::AwaitRequest
    }

    /// Whether the exchange is over.
    pub fn is_closed(&self) -> (closed: bool)
        ensures
            closed == (self is Closed),
    {
        match self {
            Exchange::Closed(_) => true,
            _ => false,
        }
    }

    /// Takes the event that the last action brought, and says at which stage
    /// the exchange stands then and what is to be done there.
    pub fn step(self, event: Event) -> (r: (Exchange, Action))
        ensures
            self.follows(event, r.0, r.1),
    {
        match (self, event) {
            (Exchange::AwaitRequest, Event::Received(ConnResult::Success(request))) => {
                (Exchange::MaybeIntercept, Action::Intercept(request))
            },
            (Exchange::AwaitRequest, Event::Received(ConnResult::ZeroPacket)) => {
                (Exchange::Closed(Ending::Clean), Action::Close)
            },
            (Exchange::MaybeIntercept, Event::Intercepted(_, Some(response))) => {
                (Exchange::Reply, Action::Reply(response))
            },
            (Exchange::MaybeIntercept, Event::Intercepted(request, None)) => {
                let (_, host, port, _) = request.disassembly_path();
                if host.as_bytes().len() > 0 {
                    let host = String::from_str(host);
                    (Exchange::Dial(request), Action::Connect(host, port))
                } else {
                    (Exchange::Reply, Action::Reply(bad_gateway_response()))
                }
            },
            (Exchange::Dial(request), Event::Dialed(true)) => {
                (Exchange::ForwardRequest, Action::Forward(request))
            },
            (Exchange::Dial(_), Event::Dialed(false)) => {
                (Exchange::Reply, Action::Reply(bad_gateway_response()))
            },
            (Exchange::ForwardRequest, Event::Forwarded(ConnResult::Success(_))) => {
                (Exchange::AwaitResponse, Action::Await)
            },
            (Exchange::ForwardRequest, Event::Forwarded(_)) => {
                (Exchange::Reply, Action::Reply(bad_gateway_response()))
            },
            (Exchange::AwaitResponse, Event::Answered(ConnResult::Success(response))) => {
                (Exchange::MaybeInterceptResponse, Action::Rewrite(response))
            },
            (Exchange::AwaitResponse, Event::Answered(_)) => {
                (Exchange::Reply, Action::Reply(bad_gateway_response()))
            },
            (Exchange::MaybeInterceptResponse, Event::Rewritten(response)) => {
                (Exchange::Reply, Action::Reply(response))
            },
            (Exchange::Reply, Event::Replied(ConnResult::Success(_))) => {
                (Exchange::Closed(Ending::Answered), Action::Close)
            },
            (Exchange::Closed(ending), _) => (Exchange::Closed(ending), Action::Close),
            _ => (Exchange::Closed(Ending::Abandoned), Action::Close),
        }
    }

    /// The stages follow one another in their order, and none is entered
    /// twice: every step leads to a later stage, until the exchange is
    /// closed, and closed it stays, with the ending that it had.
    pub proof fn lemma_stages_in_order(self, event: Event, next: Exchange, action: Action)
        requires
            self.follows(event, next, action),
        ensures
            self is Closed ==> next == self,
            !(self is Closed) ==> self.rank() < next.rank(),
    {
    }

    /// Once a request has been read, the client is answered. At every stage
    /// between the request and the reply, the event that the stage waits for
    /// leads on towards the reply or to the reply itself, never to the
    /// closing of the connection; and what is replied where the origin gave
    /// no response is the 502 of the proxy's own making.
    pub proof fn lemma_client_is_answered(self, event: Event, next: Exchange, action: Action)
        requires
            self.follows(event, next, action),
            self.expects(event),
            !(self is AwaitRequest),
            !(self is Reply),
        ensures
            !(next is Closed),
            !(action is Close),
            next is Reply <==> action is Reply,
            next is Reply && !(event is Intercepted) && !(event is Rewritten)
                ==> replies_bad_gateway(action),
    {
    }

    /// Before a request has been read nothing is promised: a receive that
    /// ends without a request closes the connection, and no reply is sent.
    /// The exchange ends clean where the client had closed, and is abandoned
    /// where the receive failed.
    pub proof fn lemma_silent_before_request(self, event: Event, next: Exchange, action: Action)
        requires
            self.follows(event, next, action),
            self is AwaitRequest,
            !(event matches Event::Received(ConnResult::Success(_))),
        ensures
            next is Closed,
            action is Close,
            next == Exchange::Closed(Ending::Clean)
                <==> event matches Event::Received(ConnResult::ZeroPacket),
    {
    }

    /// A reply ends the exchange: whatever comes after the reply has been
    /// handed out, the connection closes, and nothing is dialled, sent on or
    /// awaited any more. The exchange ends answered exactly where the reply
    /// was sent.
    pub proof fn lemma_reply_ends_exchange(self, event: Event, next: Exchange, action: Action)
        requires
            self.follows(event, next, action),
            self is Reply || self is Closed,
        ensures
            next is Closed,
            action is Close,
            self is Reply ==> (next == Exchange::Closed(Ending::Answered)
                <==> event matches Event::Replied(ConnResult::Success(_))),
    {
    }
}

/// The response that the proxy makes where the origin gave none.
pub fn bad_gateway_response() -> (response: Response)
    ensures
        response@ == bad_gateway(),
{
    Response::new(1, 502, "Bad Gateway")
}

} // verus!
