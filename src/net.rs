use vstd::prelude::*;

verus! {

/// One point of a net: a pin of a device, as (device index, pin index).
#[derive(Clone, Copy, Debug)]
pub struct NetConnection {
    device: usize,
    pin: usize,
}

impl NetConnection {
    /// The connected point as (device index, pin index).
    pub closed spec fn point(&self) -> (usize, usize) {
        (self.device, self.pin)
    }

    pub fn new(device: usize, pin: usize) -> (r: NetConnection)
        ensures
            r.point() == (device, pin),
    {
        NetConnection { device, pin }
    }

    pub fn get_device(&self) -> (r: usize)
        ensures
            r == self.point().0,
    {
        self.device
    }

    pub fn get_pin(&self) -> (r: usize)
        ensures
            r == self.point().1,
    {
        self.pin
    }
}

/// A set of points that are electrically joined, in the order given.
#[derive(Debug)]
pub struct Net {
    connections: Vec<NetConnection>,
}

impl Net {
    /// The connections of the net, in order.
    pub closed spec fn points(&self) -> Seq<NetConnection> {
        self.connections@
    }

    pub fn new(connections: Vec<NetConnection>) -> (r: Net)
        ensures
            r.points() == connections@,
    {
        Net { connections }
    }

    pub fn connections_iter(&self) -> (r: &[NetConnection])
        ensures
            r@ == self.points(),
    {
        self.connections.as_slice()
    }
}

/// The peers that `from` reaches through the first `j` connections of one
/// net: each of them that is not `from` itself, in order.
pub open spec fn peers_among(conns: Seq<NetConnection>, from: (usize, usize), j: int) -> Seq<
    (usize, usize),
>
    decreases j,
{
    if j <= 0 {
        seq![]
    } else {
        peers_among(conns, from, j - 1) + if conns[j - 1].point() != from {
            seq![conns[j - 1].point()]
        } else {
            seq![]
        }
    }
}

/// What one net contributes to the fanout of `from`, looking at its first `i`
/// connections as sources: all its other points, once for each time `from`
/// occurs among those sources.
pub open spec fn net_fanout(conns: Seq<NetConnection>, from: (usize, usize), i: int) -> Seq<
    (usize, usize),
>
    decreases i,
{
    if i <= 0 {
        seq![]
    } else {
        net_fanout(conns, from, i - 1) + if conns[i - 1].point() == from {
            peers_among(conns, from, conns.len() as int)
        } else {
            seq![]
        }
    }
}

/// The fanout of `from` over the first `k` nets: for every net in order, for
/// every ordered pair of distinct points (from, b) of it, `b`.
pub open spec fn fanout_over(nets: Seq<Net>, from: (usize, usize), k: int) -> Seq<(usize, usize)>
    decreases k,
{
    if k <= 0 {
        seq![]
    } else {
        fanout_over(nets, from, k - 1) + net_fanout(
            nets[k - 1].points(),
            from,
            nets[k - 1].points().len() as int,
        )
    }
}

/// The fanout of `from` over all of `nets`.
pub open spec fn fanout_of(nets: Seq<Net>, from: (usize, usize)) -> Seq<(usize, usize)> {
    fanout_over(nets, from, nets.len() as int)
}

/// Every point of every net satisfies `ok`.
pub open spec fn all_points(nets: Seq<Net>, ok: spec_fn((usize, usize)) -> bool) -> bool {
    forall|k: int, j: int|
        0 <= k < nets.len() && 0 <= j < nets[k].points().len() ==> #[trigger] ok(
            nets[k].points()[j].point(),
        )
}

/// A net of a single connection has no peers: it propagates nothing.
pub proof fn lemma_single_connection_net(c: NetConnection, from: (usize, usize))
    ensures
        net_fanout(seq![c], from, 1) == Seq::<(usize, usize)>::empty(),
{
    let s = seq![c];
    assert(peers_among(s, from, 0) == Seq::<(usize, usize)>::empty());
    if c.point() == from {
        assert(peers_among(s, from, 1) =~= Seq::<(usize, usize)>::empty());
    }
    assert(net_fanout(s, from, 0) == Seq::<(usize, usize)>::empty());
    assert(net_fanout(s, from, 1) =~= Seq::<(usize, usize)>::empty());
}

/// Every entry of `s` satisfies `ok` and differs from `from`.
pub open spec fn entries_ok(
    s: Seq<(usize, usize)>,
    from: (usize, usize),
    ok: spec_fn((usize, usize)) -> bool,
) -> bool {
    forall|x: int| 0 <= x < s.len() ==> ok(#[trigger] s[x]) && s[x] != from
}

proof fn lemma_entries_ok_concat(
    a: Seq<(usize, usize)>,
    b: Seq<(usize, usize)>,
    from: (usize, usize),
    ok: spec_fn((usize, usize)) -> bool,
)
    requires
        entries_ok(a, from, ok),
        entries_ok(b, from, ok),
    ensures
        entries_ok(a + b, from, ok),
{
    assert forall|x: int| 0 <= x < (a + b).len() implies ok(#[trigger] (a + b)[x]) && (a + b)[x]
        != from by {
        if x < a.len() {
            assert((a + b)[x] == a[x]);
        } else {
            assert((a + b)[x] == b[x - a.len()]);
        }
    }
}

proof fn lemma_peers_among_ok(
    conns: Seq<NetConnection>,
    from: (usize, usize),
    j: int,
    ok: spec_fn((usize, usize)) -> bool,
)
    requires
        j <= conns.len(),
        forall|m: int| 0 <= m < conns.len() ==> #[trigger] ok(conns[m].point()),
    ensures
        entries_ok(peers_among(conns, from, j), from, ok),
    decreases j,
{
    if j > 0 {
        lemma_peers_among_ok(conns, from, j - 1, ok);
        let tail = if conns[j - 1].point() != from {
            seq![conns[j - 1].point()]
        } else {
            seq![]
        };
        assert(ok(conns[j - 1].point()));
        assert(entries_ok(tail, from, ok));
        lemma_entries_ok_concat(peers_among(conns, from, j - 1), tail, from, ok);
    }
}

proof fn lemma_net_fanout_ok(
    conns: Seq<NetConnection>,
    from: (usize, usize),
    i: int,
    ok: spec_fn((usize, usize)) -> bool,
)
    requires
        i <= conns.len(),
        forall|m: int| 0 <= m < conns.len() ==> #[trigger] ok(conns[m].point()),
    ensures
        entries_ok(net_fanout(conns, from, i), from, ok),
    decreases i,
{
    if i > 0 {
        lemma_net_fanout_ok(conns, from, i - 1, ok);
        lemma_peers_among_ok(conns, from, conns.len() as int, ok);
        let tail = if conns[i - 1].point() == from {
            peers_among(conns, from, conns.len() as int)
        } else {
            seq![]
        };
        assert(entries_ok(tail, from, ok));
        lemma_entries_ok_concat(net_fanout(conns, from, i - 1), tail, from, ok);
    }
}

/// Every entry of a fanout is a point of one of the nets, and never `from`
/// itself: a pin is not notified of its own output.
pub proof fn lemma_fanout_points(
    nets: Seq<Net>,
    from: (usize, usize),
    k: int,
    ok: spec_fn((usize, usize)) -> bool,
)
    requires
        k <= nets.len(),
        all_points(nets, ok),
    ensures
        entries_ok(fanout_over(nets, from, k), from, ok),
    decreases k,
{
    if k > 0 {
        lemma_fanout_points(nets, from, k - 1, ok);
        let conns = nets[k - 1].points();
        assert forall|m: int| 0 <= m < conns.len() implies #[trigger] ok(conns[m].point()) by {
            assert(ok(nets[k - 1].points()[m].point()));
        }
        lemma_net_fanout_ok(conns, from, conns.len() as int, ok);
        lemma_entries_ok_concat(
            fanout_over(nets, from, k - 1),
            net_fanout(conns, from, conns.len() as int),
            from,
            ok,
        );
    }
}

} // verus!
