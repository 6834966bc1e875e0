//! Unique 128-bit identifier generation.
//!
//! An identifier packs the generator's clock reading into the high 64 bits, a
//! 16-bit counter below it, and a 48-bit node address in the low bits. The
//! counter makes identifiers drawn on the same clock reading distinct; the
//! node address makes identifiers drawn on distinct machines distinct.

use vstd::prelude::*;

verus! {

broadcast use vstd::array::group_array_axioms;

/// Why a generator could not be built.
#[derive(Debug, PartialEq, Eq, Structural)]
pub enum IdGenError {
    /// No hardware address was available to distinguish this node.
    NoNodeAddress,
}

/// The state of the identifier generator: a fixed node address, the clock
/// reading of the latest draw, and the counter of draws on that reading.
pub struct Generator {
    pub mac: u64,
    pub counter: u64,
    pub last_time: u128,
}

/// The number packed from a byte sequence, first byte most significant.
pub open spec fn node_value(bs: Seq<u8>) -> int
    decreases bs.len(),
{
    if bs.len() == 0 {
        0
    } else {
        node_value(bs.drop_last()) * 256 + bs.last()
    }
}

/// The identifier built from a clock reading, a counter and a node address:
/// the low 64 bits of the reading on top, then the counter, then the address.
pub open spec fn compose_id(now: u128, counter: u64, mac: u64) -> u128
    recommends
        counter < 0x10000,
        mac < 0x1000000000000,
{
    (((now % 0x10000000000000000) * 0x10000000000000000) + (counter as int) * 0x1000000000000
        + mac as int) as u128
}

impl Generator {
    /// The generator's invariant: the counter fits in 16 bits and the node
    /// address in 48.
    pub open spec fn wf(&self) -> bool {
        self.counter < 0x10000 && self.mac < 0x1000000000000
    }

}

/// What one draw does: a reading later than the latest one resets the
/// counter, any other reading advances it modulo 2^16; the identifier packs
/// the current reading with the new counter and the node address.
pub open spec fn step_spec(g: Generator, now: u128) -> (Generator, u128) {
    if g.last_time < now {
        let g2 = Generator { counter: 0, last_time: now, ..g };
        (g2, compose_id(now, 0, g.mac))
    } else {
        let c = ((g.counter + 1) % 0x10000) as u64;
        let g2 = Generator { counter: c, ..g };
        (g2, compose_id(now, c, g.mac))
    }
}

/// Whether one call of the generator at reading `now` turns state `g1` into
/// state `g2` and yields `id`.
pub open spec fn stepped(g1: Generator, g2: Generator, id: u128, now: u128) -> bool {
    step_spec(g1, now) == (g2, id)
}

/// Whether one call of the generator, at some clock reading, turns state
/// `g1` into state `g2` and yields `id`.
pub open spec fn generated_from(g1: Generator, g2: Generator, id: u128) -> bool {
    exists|now: u128| stepped(g1, g2, id, now)
}

/// Relies on `mac_address::get_mac_address`: the bytes of one of the
/// machine's hardware addresses, or `None` when none can be found.
#[verifier::external_body]
fn node_address_bytes() -> (r: Option<[u8; 6]>) {
    match mac_address::get_mac_address() {
        Ok(Some(m)) => Some(m.bytes()),
        _ => None,
    }
}

/// Relies on `std::time::SystemTime::now` and `duration_since`: the
/// nanoseconds since the Unix epoch, or zero if the clock stands before it.
#[verifier::external_body]
fn unix_nanos() -> (r: u128) {
    std::time::SystemTime::now().duration_since(std::time::SystemTime::UNIX_EPOCH).map(
        |d| d.as_nanos(),
    ).unwrap_or(0)
}

fn node_from_bytes(b: &[u8; 6]) -> (r: u64)
    ensures
        r == node_value(b@),
        r < 0x1000000000000,
{
    let r0: u64 = b[0] as u64;
    let r1: u64 = r0 * 256 + b[1] as u64;
    let r2: u64 = r1 * 256 + b[2] as u64;
    let r3: u64 = r2 * 256 + b[3] as u64;
    let r4: u64 = r3 * 256 + b[4] as u64;
    let r5: u64 = r4 * 256 + b[5] as u64;
    proof {
        let s = b@;
        assert(s.len() == 6);
        let s5 = s.drop_last();
        let s4 = s5.drop_last();
        let s3 = s4.drop_last();
        let s2 = s3.drop_last();
        let s1 = s2.drop_last();
        let s0 = s1.drop_last();
        assert(s0 =~= Seq::<u8>::empty());
        assert(node_value(s0) == 0);
        assert(r0 == s[0]);
        assert(s1.last() == s[0] && s2.last() == s[1] && s3.last() == s[2] && s4.last() == s[3]
            && s5.last() == s[4] && s.last() == s[5]);
        assert(node_value(s1) == r0);
        assert(node_value(s2) == r1);
        assert(node_value(s3) == r2);
        assert(node_value(s4) == r3);
        assert(node_value(s5) == r4);
        assert(node_value(s) == r5);
    }
    r5
}

impl Generator {
    /// Builds a generator from the machine's hardware address. Fails with an
    /// explicit error, rather than aborting, when no address is available.
    pub fn new() -> (r: Result<Generator, IdGenError>)
        ensures
            match r {
                Ok(g) => g.wf() && g.counter == 0 && g.last_time == 0,
                Err(e) => e == IdGenError::NoNodeAddress,
            },
    {
        match node_address_bytes() {
            Some(bytes) => {
                let mac = node_from_bytes(&bytes);
                Ok(Generator { mac, counter: 0, last_time: 0 })
            },
            None => Err(IdGenError::NoNodeAddress),
        }
    }

    /// Builds a generator from a caller-chosen node address, for hosts that
    /// want a fallback when no hardware address exists.
    pub fn from_node(node: u64) -> (g: Generator)
        requires
            node < 0x1000000000000,
        ensures
            g.wf(),
            g.mac == node,
            g.counter == 0,
            g.last_time == 0,
    {
        Generator { mac: node, counter: 0, last_time: 0 }
    }

    /// One draw at a given clock reading.
    fn next_id(&mut self, now: u128) -> (id: u128)
        requires
            old(self).wf(),
        ensures
            final(self).wf(),
            stepped(*old(self), *final(self), id, now),
    {
        if self.last_time < now {
            self.last_time = now;
            self.counter = 0;
        } else {
            self.counter = (self.counter + 1) % 0x10000;
        }
        (now % 0x10000000000000000) * 0x10000000000000000 + (self.counter as u128)
            * 0x1000000000000 + (self.mac as u128)
    }
}

/// Draws a fresh identifier: reads the clock and steps the generator.
pub fn gen_id(g: &mut Generator) -> (id: u128)
    requires
        old(g).wf(),
    ensures
        final(g).wf(),
        final(g).mac == old(g).mac,
        generated_from(*old(g), *final(g), id),
{
    let now = unix_nanos();
    let id = g.next_id(now);
    proof {
        assert(stepped(*old(g), *g, id, now));
        assert(generated_from(*old(g), *g, id));
    }
    id
}

/// Two identifiers drawn one after the other from the same generator are
/// distinct, for clock readings inside the packed 64-bit range.
pub proof fn lemma_successive_ids_distinct(g0: Generator, now1: u128, now2: u128)
    requires
        g0.wf(),
        now1 < 0x10000000000000000,
        now2 < 0x10000000000000000,
    ensures
        step_spec(g0, now1).1 != step_spec(step_spec(g0, now1).0, now2).1,
{
    let (g1, id1) = step_spec(g0, now1);
    let (g2, id2) = step_spec(g1, now2);
    assert(now1 % 0x10000000000000000 == now1);
    assert(now2 % 0x10000000000000000 == now2);
    if g1.last_time < now2 {
        assert(now1 <= g1.last_time);
        assert(now1 < now2);
    } else {
        if now1 == now2 {
            assert(g2.counter == (g1.counter + 1) % 0x10000);
            assert(g1.counter != g2.counter);
        }
    }
}

/// The identifiers drawn by a sequence of calls with the given clock
/// readings, in order.
pub open spec fn run_ids(g: Generator, nows: Seq<u128>) -> Seq<u128>
    decreases nows.len(),
{
    if nows.len() == 0 {
        Seq::empty()
    } else {
        seq![step_spec(g, nows[0]).1] + run_ids(step_spec(g, nows[0]).0, nows.drop_first())
    }
}

/// How many of the first `i` readings equal `t`.
pub open spec fn count_reading(nows: Seq<u128>, t: u128, i: int) -> int
    decreases i,
{
    if i <= 0 {
        0
    } else {
        count_reading(nows, t, i - 1) + if nows[i - 1] == t {
            1int
        } else {
            0int
        }
    }
}

/// How many earlier readings equal the reading at `i`.
pub open spec fn occurrences_before(nows: Seq<u128>, i: int) -> int {
    count_reading(nows, nows[i], i)
}

/// The counter packed into the `i`-th identifier of a run: the number of
/// earlier draws at the same reading, shifted past the generator's own
/// counter when the reading ties the generator's latest one.
pub open spec fn run_counter(g: Generator, nows: Seq<u128>, i: int) -> int {
    if nows[i] == g.last_time {
        (g.counter + 1 + occurrences_before(nows, i)) % 0x10000
    } else {
        occurrences_before(nows, i) % 0x10000
    }
}

/// Whether the readings never decrease.
pub open spec fn readings_monotone(nows: Seq<u128>) -> bool {
    forall|i: int, j: int| 0 <= i < j < nows.len() ==> nows[i] <= nows[j]
}

proof fn lemma_count_reading_drop(nows: Seq<u128>, t: u128, i: int)
    requires
        nows.len() > 0,
        0 <= i <= nows.len() - 1,
    ensures
        count_reading(nows, t, i + 1) == count_reading(nows.drop_first(), t, i) + if nows[0] == t {
            1int
        } else {
            0int
        },
    decreases i,
{
    if i == 0 {
        assert(count_reading(nows, t, 0) == 0);
        assert(count_reading(nows.drop_first(), t, 0) == 0);
        assert(count_reading(nows, t, 1) == count_reading(nows, t, 0) + if nows[0] == t {
            1int
        } else {
            0int
        });
    } else {
        lemma_count_reading_drop(nows, t, i - 1);
        assert(nows.drop_first()[i - 1] == nows[i]);
        assert(count_reading(nows, t, i + 1) == count_reading(nows, t, i) + if nows[i] == t {
            1int
        } else {
            0int
        });
        assert(count_reading(nows.drop_first(), t, i) == count_reading(nows.drop_first(), t, i - 1)
            + if nows.drop_first()[i - 1] == t {
            1int
        } else {
            0int
        });
    }
}

proof fn lemma_count_reading_bound(nows: Seq<u128>, t: u128, i: int)
    requires
        0 <= i,
    ensures
        0 <= count_reading(nows, t, i) <= i,
    decreases i,
{
    if i > 0 {
        lemma_count_reading_bound(nows, t, i - 1);
    }
}

/// Each identifier of a run packs its own clock reading with the run
/// counter at its position.
proof fn lemma_run_ids_characterized(g: Generator, nows: Seq<u128>)
    requires
        g.wf(),
        readings_monotone(nows),
        forall|i: int| 0 <= i < nows.len() ==> g.last_time <= #[trigger] nows[i],
    ensures
        run_ids(g, nows).len() == nows.len(),
        forall|i: int|
            0 <= i < nows.len() ==> #[trigger] run_ids(g, nows)[i] == compose_id(
                nows[i],
                run_counter(g, nows, i) as u64,
                g.mac,
            ),
    decreases nows.len(),
{
    if nows.len() == 0 {
        return ;
    }
    let (g1, id0) = step_spec(g, nows[0]);
    let rest = nows.drop_first();
    assert(readings_monotone(rest)) by {
        assert(forall|i: int, j: int|
            0 <= i < j < rest.len() ==> rest[i] == nows[i + 1] && rest[j] == nows[j + 1]);
    }
    assert(forall|i: int| 0 <= i < rest.len() ==> g1.last_time <= #[trigger] rest[i]) by {
        assert(forall|i: int| 0 <= i < rest.len() ==> rest[i] == nows[i + 1]);
    }
    lemma_run_ids_characterized(g1, rest);
    assert forall|i: int| 0 <= i < nows.len() implies #[trigger] run_ids(g, nows)[i] == compose_id(
        nows[i],
        run_counter(g, nows, i) as u64,
        g.mac,
    ) by {
        if i == 0 {
            assert(run_ids(g, nows)[0] == id0);
            if nows[0] == g.last_time {
                assert(run_counter(g, nows, 0) == (g.counter + 1) % 0x10000);
            } else {
                assert(g.last_time < nows[0]);
                assert(run_counter(g, nows, 0) == 0);
                vstd::arithmetic::div_mod::lemma_small_mod(0, 0x10000);
            }
        } else {
            assert(run_ids(g, nows)[i] == run_ids(g1, rest)[i - 1]);
            assert(run_ids(g1, rest)[i - 1] == compose_id(
                rest[i - 1],
                run_counter(g1, rest, i - 1) as u64,
                g1.mac,
            ));
            assert(rest[i - 1] == nows[i]);
            assert(g1.mac == g.mac);
            lemma_count_reading_drop(nows, nows[i], i - 1);
            lemma_count_reading_bound(rest, nows[i], i - 1);
            assert(occurrences_before(nows, i) == occurrences_before(rest, i - 1) + if nows[0]
                == nows[i] {
                1int
            } else {
                0int
            });
            if g.last_time < nows[0] {
                // The first draw was fresh: the generator now stands at
                // reading `nows[0]` with counter zero.
                assert(g1.last_time == nows[0] && g1.counter == 0);
                if nows[i] == nows[0] {
                    assert(run_counter(g1, rest, i - 1) == (0 + 1 + occurrences_before(
                        rest,
                        i - 1,
                    )) % 0x10000);
                    assert(run_counter(g, nows, i) == occurrences_before(nows, i) % 0x10000);
                    assert(occurrences_before(nows, i) == 1 + occurrences_before(rest, i - 1));
                } else {
                    assert(nows[0] < nows[i]);
                    assert(run_counter(g1, rest, i - 1) == occurrences_before(rest, i - 1)
                        % 0x10000);
                    assert(run_counter(g, nows, i) == occurrences_before(nows, i) % 0x10000);
                    assert(occurrences_before(nows, i) == occurrences_before(rest, i - 1));
                }
            } else {
                // The first draw tied the generator's reading.
                assert(nows[0] == g.last_time);
                assert(g1.last_time == g.last_time);
                assert(g1.counter == (g.counter + 1) % 0x10000);
                if nows[i] == nows[0] {
                    assert(occurrences_before(nows, i) == 1 + occurrences_before(rest, i - 1));
                    assert(run_counter(g1, rest, i - 1) == ((g.counter + 1) % 0x10000 + 1
                        + occurrences_before(rest, i - 1)) % 0x10000);
                    assert(run_counter(g, nows, i) == (g.counter + 1 + occurrences_before(
                        nows,
                        i,
                    )) % 0x10000);
                    let b = 1 + occurrences_before(rest, i - 1);
                    assert(0 <= b < 0x10000 || b >= 0x10000);
                    vstd::arithmetic::div_mod::lemma_add_mod_noop(g.counter + 1, b, 0x10000);
                    vstd::arithmetic::div_mod::lemma_mod_mod(b, 0x10000, 1);
                    assert((g.counter + 1 + b) % 0x10000 == ((g.counter + 1) % 0x10000 + b
                        % 0x10000) % 0x10000);
                    vstd::arithmetic::div_mod::lemma_add_mod_noop_right(
                        (g.counter + 1) % 0x10000,
                        b,
                        0x10000,
                    );
                } else {
                    assert(nows[0] < nows[i]);
                    assert(occurrences_before(nows, i) == occurrences_before(rest, i - 1));
                }
            }
        }
    }
}

/// Identifiers packing distinct readings, or one reading with distinct
/// counters, are distinct.
proof fn lemma_compose_injective(t1: u128, c1: u64, t2: u128, c2: u64, mac: u64)
    requires
        t1 < 0x10000000000000000,
        t2 < 0x10000000000000000,
        c1 < 0x10000,
        c2 < 0x10000,
        mac < 0x1000000000000,
        t1 != t2 || c1 != c2,
    ensures
        compose_id(t1, c1, mac) != compose_id(t2, c2, mac),
{
    assert(t1 % 0x10000000000000000 == t1);
    assert(t2 % 0x10000000000000000 == t2);
}

/// Uniqueness of a whole run of draws: from a generator that has not yet
/// reached the first reading, a run over non-decreasing readings inside the
/// packed 64-bit range, with fewer than 2^16 draws at any one reading,
/// yields pairwise distinct identifiers. Concurrent callers draw from the
/// process-wide generator one at a time, so their draws form such a run.
pub proof fn lemma_run_ids_distinct(g: Generator, nows: Seq<u128>)
    requires
        g.wf(),
        readings_monotone(nows),
        nows.len() > 0 ==> g.last_time < nows[0],
        forall|i: int| 0 <= i < nows.len() ==> #[trigger] nows[i] < 0x10000000000000000,
        forall|i: int| 0 <= i < nows.len() ==> occurrences_before(nows, i) < 0xFFFF,
    ensures
        run_ids(g, nows).len() == nows.len(),
        forall|i: int, j: int|
            0 <= i < j < nows.len() ==> #[trigger] run_ids(g, nows)[i] != #[trigger] run_ids(
                g,
                nows,
            )[j],
{
    if nows.len() == 0 {
        return ;
    }
    assert(forall|i: int| 0 <= i < nows.len() ==> g.last_time <= #[trigger] nows[i]) by {
        assert(forall|i: int| 0 < i < nows.len() ==> nows[0] <= #[trigger] nows[i]);
    }
    lemma_run_ids_characterized(g, nows);
    assert forall|i: int, j: int| 0 <= i < j < nows.len() implies #[trigger] run_ids(g, nows)[i]
        != #[trigger] run_ids(g, nows)[j] by {
        assert(nows[i] != g.last_time && nows[j] != g.last_time);
        let ci = occurrences_before(nows, i);
        let cj = occurrences_before(nows, j);
        lemma_count_reading_bound(nows, nows[i], i);
        lemma_count_reading_bound(nows, nows[j], j);
        vstd::arithmetic::div_mod::lemma_small_mod(ci as nat, 0x10000);
        vstd::arithmetic::div_mod::lemma_small_mod(cj as nat, 0x10000);
        if nows[i] == nows[j] {
            lemma_count_monotone(nows, nows[i], i, j);
            assert(cj >= ci + 1);
        }
        lemma_compose_injective(
            nows[i],
            run_counter(g, nows, i) as u64,
            nows[j],
            run_counter(g, nows, j) as u64,
            g.mac,
        );
    }
}

/// The count of a reading never drops as the prefix grows.
proof fn lemma_count_nondecreasing(nows: Seq<u128>, t: u128, a: int, b: int)
    requires
        0 <= a <= b,
    ensures
        count_reading(nows, t, a) <= count_reading(nows, t, b),
    decreases b - a,
{
    if a < b {
        lemma_count_nondecreasing(nows, t, a, b - 1);
    }
}

/// Later positions at the same reading have strictly more earlier
/// occurrences.
proof fn lemma_count_monotone(nows: Seq<u128>, t: u128, i: int, j: int)
    requires
        0 <= i < j < nows.len(),
        nows[i] == t,
        nows[j] == t,
    ensures
        count_reading(nows, t, j) >= count_reading(nows, t, i) + 1,
{
    assert(count_reading(nows, t, i + 1) == count_reading(nows, t, i) + 1);
    lemma_count_nondecreasing(nows, t, i + 1, j);
}

} // verus!
