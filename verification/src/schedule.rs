//! The test schedule: the ordered list of scripted test cases that one
//! simulation run plays against a device under test.

use vstd::prelude::*;

use crate::codec::RaniPacket;
use crate::codec::SpecPacket;

verus! {

/// One scripted test case: which link transmits which packet (optionally
/// with a forged checksum byte), which links are expected to answer with
/// which packets (absence means no answer is expected anywhere), and a
/// human-readable label for the report.
pub struct TestCase {
    pub send_link: usize,
    pub send_packet: RaniPacket,
    pub custom_checksum: Option<u8>,
    pub recv_links: Option<Vec<usize>>,
    pub recv_packets: Option<Vec<RaniPacket>>,
    pub msg: String,
}

/// Mathematical model of a test case.
pub ghost struct SpecTestCase {
    pub send_link: usize,
    pub send_packet: SpecPacket,
    pub custom_checksum: Option<u8>,
    pub recv_links: Option<Seq<usize>>,
    pub recv_packets: Option<Seq<SpecPacket>>,
    pub msg: Seq<char>,
}

impl View for TestCase {
    type V = SpecTestCase;

    open spec fn view(&self) -> SpecTestCase {
        SpecTestCase {
            send_link: self.send_link,
            send_packet: self.send_packet@,
            custom_checksum: self.custom_checksum,
            recv_links: match self.recv_links {
                Some(ref l) => Some(l@),
                None => None,
            },
            recv_packets: match self.recv_packets {
                Some(ref p) => Some(p@.map_values(|q: RaniPacket| q@)),
                None => None,
            },
            msg: self.msg@,
        }
    }
}

impl SpecTestCase {
    /// The test-case invariant: expected links and expected packets are
    /// given together and in equal number, and the packet to transmit is
    /// well formed.
    pub open spec fn wf(self) -> bool {
        &&& self.recv_links is Some <==> self.recv_packets is Some
        &&& (self.recv_links matches Some(l) ==> self.recv_packets->Some_0.len() == l.len())
        &&& self.send_packet.wf()
    }
}

/// Copies a vector of link indices element by element.
fn clone_links(v: &Vec<usize>) -> (r: Vec<usize>)
    ensures
        r@ == v@,
{
    let mut r: Vec<usize> = Vec::new();
    let mut i: usize = 0;
    while i < v.len()
        invariant
            i <= v@.len(),
            r@ == v@.take(i as int),
        decreases v@.len() - i,
    {
        r.push(v[i]);
        proof {
            assert(r@ =~= v@.take(i + 1 as int));
        }
        i = i + 1;
    }
    proof {
        assert(v@.take(v@.len() as int) =~= v@);
    }
    r
}

/// Copies a vector of packets element by element.
fn clone_packets(v: &Vec<RaniPacket>) -> (r: Vec<RaniPacket>)
    ensures
        r@.map_values(|q: RaniPacket| q@) == v@.map_values(|q: RaniPacket| q@),
{
    let mut r: Vec<RaniPacket> = Vec::new();
    let mut i: usize = 0;
    while i < v.len()
        invariant
            i <= v@.len(),
            r@.len() == i,
            forall|k: int| 0 <= k < i ==> r@[k]@ == v@[k]@,
        decreases v@.len() - i,
    {
        r.push(v[i].clone());
        i = i + 1;
    }
    proof {
        assert(r@.map_values(|q: RaniPacket| q@) =~= v@.map_values(|q: RaniPacket| q@));
    }
    r
}

impl Clone for TestCase {
    /// A copy with the very same model.
    fn clone(&self) -> (r: Self)
        ensures
            r@ == self@,
    {
        let r = TestCase {
            send_link: self.send_link,
            send_packet: self.send_packet.clone(),
            custom_checksum: self.custom_checksum,
            recv_links: match &self.recv_links {
                Some(l) => Some(clone_links(l)),
                None => None,
            },
            recv_packets: match &self.recv_packets {
                Some(p) => Some(clone_packets(p)),
                None => None,
            },
            msg: self.msg.clone(),
        };
        proof {
            assert(r@ == self@);
        }
        r
    }
}

/// The whole test schedule, in the order the cycle engine executes it.
pub struct Tester {
    tests: Vec<TestCase>,
}

impl View for Tester {
    type V = Seq<SpecTestCase>;

    closed spec fn view(&self) -> Seq<SpecTestCase> {
        self.tests@.map_values(|t: TestCase| t@)
    }
}

impl Tester {
    /// Wraps an ordered list of test cases into a schedule.
    pub fn new(tests: Vec<TestCase>) -> (r: Self)
        ensures
            r@ == tests@.map_values(|t: TestCase| t@),
    {
        Tester { tests }
    }

    /// Number of test cases in the schedule.
    pub fn len(&self) -> (n: usize)
        ensures
            n == self@.len(),
    {
        self.tests.len()
    }

    /// An iterator handing out a copy of each test case in order.
    pub fn cloned_iter(&self) -> (it: TesterClonedIterator<'_>)
        ensures
            it.tester@ == self@,
            it.index == 0,
    {
        TesterClonedIterator { tester: self, index: 0 }
    }
}

/// Iterates over a schedule, handing out a copy of each case in order.
pub struct TesterClonedIterator<'a> {
    pub tester: &'a Tester,
    pub index: usize,
}

impl<'a> TesterClonedIterator<'a> {
    /// The next test case, copied out of the schedule, or `None` once the
    /// schedule is exhausted.
    pub fn next(&mut self) -> (r: Option<TestCase>)
        ensures
            old(self).index < old(self).tester@.len() ==> (r matches Some(t) && t@ == old(
                self,
            ).tester@[old(self).index as int] && final(self).index == old(self).index + 1),
            old(self).index >= old(self).tester@.len() ==> r is None && final(self).index == old(
                self,
            ).index,
            final(self).tester == old(self).tester,
    {
        if self.index >= self.tester.tests.len() {
            return None;
        }
        let item = self.tester.tests[self.index].clone();
        self.index = self.index + 1;
        Some(item)
    }
}

} // verus!
