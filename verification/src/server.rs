//! The server: opening its socket, and what it does as connections come.

use vstd::prelude::*;

verus! {

/// How many seconds the server waits for its connections to close before it stops.
pub const GRACE_SECONDS: u64 = 2;

/// How the opening of the socket stands.
#[derive(Clone, Copy, Debug, PartialEq, Eq, Structural)]
pub enum Opening {
    /// The socket is to be bound.
    Bind,
    /// The socket file that is in the way is to be removed.
    Remove,
    /// The socket is to be bound again.
    Rebind,
    /// The socket is open.
    Open,
    /// The socket could not be opened, and what was tried last.
    Failed(Attempt),
}

/// Something that is tried to open the socket.
#[derive(Clone, Copy, Debug, PartialEq, Eq, Structural)]
pub enum Attempt {
    Bind,
    Remove,
    Rebind,
}

/// How an attempt went.
#[derive(Clone, Copy, Debug, PartialEq, Eq, Structural)]
pub enum Outcome {
    /// It went well.
    Done,
    /// It failed, since the address is in use.
    InUse,
    /// It failed for some other reason.
    Failed,
}

impl Opening {
    /// Whether nothing is left to try.
    pub open spec fn is_settled(self) -> bool {
        self is Open || self is Failed
    }

    /// How the opening stands after the attempt that it is at. An address in use is freed once,
    /// by removing the socket file, and then bound again.
    pub open spec fn after(self, outcome: Outcome) -> Opening {
        match (self, outcome) {
            (Opening::Bind, Outcome::InUse) => Opening::Remove,
            (Opening::Bind, Outcome::Failed) => Opening::Failed(Attempt::Bind),
            (Opening::Remove, Outcome::Done) => Opening::Rebind,
            (Opening::Remove, _) => Opening::Failed(Attempt::Remove),
            (Opening::Bind, Outcome::Done) | (Opening::Rebind, Outcome::Done) => Opening::Open,
            (Opening::Rebind, _) => Opening::Failed(Attempt::Rebind),
            (settled, _) => settled,
        }
    }

    /// How the opening stands after the attempt that it is at.
    pub fn advance(self, outcome: Outcome) -> (next: Opening)
        ensures
            next == self.after(outcome),
    {
        match self {
            Opening::Bind => match outcome {
                Outcome::Done => Opening::Open,
                Outcome::InUse => Opening::Remove,
                Outcome::Failed => Opening::Failed(Attempt::Bind),
            },
            Opening::Remove => match outcome {
                Outcome::Done => Opening::Rebind,
                _ => Opening::Failed(Attempt::Remove),
            },
            Opening::Rebind => match outcome {
                Outcome::Done => Opening::Open,
                _ => Opening::Failed(Attempt::Rebind),
            },
            Opening::Open | Opening::Failed(_) => self,
        }
    }
}

/// Opening the socket takes three attempts at most.
pub proof fn lemma_opening_settles(first: Outcome, second: Outcome, third: Outcome)
    ensures
        Opening::Bind.after(first).after(second).after(third).is_settled(),
{
}

/// The socket opens if and only if an attempt to bind it went well, the socket file is removed
/// if and only if the address was in use at first, and any other attempt that fails is the last.
pub proof fn lemma_opening_is_earned(opening: Opening, outcome: Outcome)
    requires
        !opening.is_settled(),
    ensures
        opening.after(outcome) is Open <==> outcome is Done && (opening is Bind
            || opening is Rebind),
        opening.after(outcome) is Remove <==> opening is Bind && outcome is InUse,
        opening.after(outcome) is Rebind <==> opening is Remove && outcome is Done,
        opening.after(outcome) == Opening::Failed(Attempt::Bind) <==> opening is Bind
            && outcome is Failed,
        opening.after(outcome) == Opening::Failed(Attempt::Remove) <==> opening is Remove && !(
        outcome is Done),
        opening.after(outcome) == Opening::Failed(Attempt::Rebind) <==> opening is Rebind && !(
        outcome is Done),
{
}

/// The server, which numbers its connections.
#[derive(Debug)]
pub struct Server {
    connections: u16,
}

/// What happens to the server.
#[derive(Clone, Copy, Debug, PartialEq, Eq, Structural)]
pub enum Arrival {
    /// A client connected.
    Connected,
    /// A connection could not be accepted.
    Rejected,
    /// The server is told to stop.
    Interrupted,
}

/// What the server does next.
#[derive(Clone, Copy, Debug, PartialEq, Eq, Structural)]
pub enum Task {
    /// Serve the connection, under this number.
    Serve(u16),
    /// Wait for the next connection.
    Wait,
    /// Stop, after a while.
    Stop,
}

impl Arrival {
    /// What the server does about it after so many connections.
    pub open spec fn task(self, connections: int) -> Task {
        match self {
            Arrival::Connected => Task::Serve(connections as u16),
            Arrival::Rejected => Task::Wait,
            Arrival::Interrupted => Task::Stop,
        }
    }

    /// How many connections there have been after it.
    pub open spec fn counted(self, connections: int) -> int {
        if self is Connected {
            connections + 1
        } else {
            connections
        }
    }
}

/// How many connections a new server has had after some arrivals.
pub open spec fn count_after(arrivals: Seq<Arrival>) -> int
    decreases arrivals.len(),
{
    if arrivals.len() == 0 {
        0
    } else {
        arrivals.last().counted(count_after(arrivals.drop_last()))
    }
}

/// What a new server does about some arrivals, one after the other.
pub open spec fn tasks(arrivals: Seq<Arrival>) -> Seq<Task>
    decreases arrivals.len(),
{
    if arrivals.len() == 0 {
        Seq::empty()
    } else {
        let before = arrivals.drop_last();
        tasks(before).push(arrivals.last().task(count_after(before)))
    }
}

/// The places among some arrivals where a client connected, in their order.
pub open spec fn accepted(arrivals: Seq<Arrival>) -> Seq<int>
    decreases arrivals.len(),
{
    if arrivals.len() == 0 {
        Seq::empty()
    } else {
        let before = accepted(arrivals.drop_last());
        if arrivals.last() is Connected {
            before.push(arrivals.len() - 1)
        } else {
            before
        }
    }
}

impl View for Server {
    type V = int;

    /// How many connections there have been.
    closed spec fn view(&self) -> int {
        self.connections as int
    }
}

impl Default for Server {
    fn default() -> (server: Server)
        ensures
            server@ == 0,
    {
        Server { connections: 0 }
    }
}

impl Server {
    /// Whether another connection can be numbered.
    pub fn has_number(&self) -> (has: bool)
        ensures
            has == (self@ < u16::MAX),
    {
        self.connections < u16::MAX
    }

    /// The number of the next connection. Connections are numbered from zero up.
    pub fn conn_increment(&mut self) -> (number: u16)
        requires
            old(self)@ < u16::MAX,
        ensures
            number == old(self)@,
            final(self)@ == old(self)@ + 1,
    {
        let number = self.connections;
        self.connections = number + 1;
        number
    }

    /// What the server does when something happens.
    pub fn next_task(&mut self, arrival: Arrival) -> (task: Task)
        requires
            arrival is Connected ==> old(self)@ < u16::MAX,
        ensures
            task == arrival.task(old(self)@),
            final(self)@ == arrival.counted(old(self)@),
    {
        match arrival {
            Arrival::Connected => Task::Serve(self.conn_increment()),
            Arrival::Rejected => Task::Wait,
            Arrival::Interrupted => Task::Stop,
        }
    }
}

/// The connection that is accepted after `i` others is served under the number `i`. So numbers
/// ascend, and none is given twice.
pub proof fn lemma_connections_are_numbered(arrivals: Seq<Arrival>, i: int)
    requires
        0 <= i < accepted(arrivals).len() <= u16::MAX,
    ensures
        count_after(arrivals) == accepted(arrivals).len(),
        0 <= accepted(arrivals)[i] < arrivals.len() == tasks(arrivals).len(),
        arrivals[accepted(arrivals)[i]] is Connected,
        tasks(arrivals)[accepted(arrivals)[i]] == Task::Serve(i as u16),
        i > 0 ==> accepted(arrivals)[i - 1] < accepted(arrivals)[i],
    decreases arrivals.len(),
{
    let before = arrivals.drop_last();
    lemma_every_arrival_counts(arrivals);
    lemma_every_arrival_counts(before);
    if i < accepted(before).len() {
        lemma_connections_are_numbered(before, i);
    } else if i > 0 {
        lemma_connections_are_numbered(before, i - 1);
    }
}

/// A connection that could not be accepted is passed over: the server waits for the next, and
/// no number is used up. An interrupt stops the server, and nothing else does.
pub proof fn lemma_only_connections_are_served(arrivals: Seq<Arrival>, i: int)
    requires
        0 <= i < arrivals.len(),
    ensures
        tasks(arrivals).len() == arrivals.len(),
        tasks(arrivals)[i] is Serve <==> accepted(arrivals).contains(i),
        tasks(arrivals)[i] is Wait <==> arrivals[i] is Rejected,
        tasks(arrivals)[i] is Stop <==> arrivals[i] is Interrupted,
        arrivals[i] is Rejected ==> count_after(arrivals.take(i + 1)) == count_after(
            arrivals.take(i),
        ),
    decreases arrivals.len(),
{
    let before = arrivals.drop_last();
    let last = arrivals.len() - 1;
    lemma_every_arrival_counts(arrivals);
    lemma_every_arrival_counts(before);
    assert(arrivals.take(i + 1).drop_last() =~= arrivals.take(i));
    if i < last {
        lemma_only_connections_are_served(before, i);
        if accepted(before).contains(i) {
            let k = accepted(before).index_of(i);
            assert(accepted(arrivals)[k] == i);
        }
        if accepted(arrivals).contains(i) {
            let k = accepted(arrivals).index_of(i);
            assert(accepted(before)[k] == i);
        }
    } else {
        if arrivals.last() is Connected {
            assert(accepted(arrivals)[accepted(before).len() as int] == i);
        } else if accepted(before).contains(i) {
            let k = accepted(before).index_of(i);
            assert(accepted(before)[k] < before.len());
        }
    }
}

/// There is one task for each arrival, and the count is that of the connections accepted.
proof fn lemma_every_arrival_counts(arrivals: Seq<Arrival>)
    ensures
        tasks(arrivals).len() == arrivals.len(),
        count_after(arrivals) == accepted(arrivals).len(),
        forall|k: int|
            0 <= k < accepted(arrivals).len() ==> 0 <= #[trigger] accepted(arrivals)[k]
                < arrivals.len(),
    decreases arrivals.len(),
{
    if arrivals.len() > 0 {
        lemma_every_arrival_counts(arrivals.drop_last());
    }
}

/// An opening that is settled stays as it is.
pub proof fn lemma_settled_stays(opening: Opening, outcome: Outcome)
    requires
        opening.is_settled(),
    ensures
        opening.after(outcome) == opening,
{
}

} // verus!
