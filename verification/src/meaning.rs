//! What the basic operations are for: numbers, values, texts, bytes and links. Each
//! law says of an operation what its result is, in terms of what went in.

use crate::adapter;
use crate::adapter::{AdapterInfo, DeviceType, Gpu, GpuError, Interface};
use crate::bytes;
use crate::bytes::Word;
use crate::graph;
use crate::graph::Adjacency;
use crate::model::{Config, ForceSpec, Kind, NodeInit, Values};
use crate::number;
use crate::number::{Scalar, F32};
use vstd::arithmetic::power2;
use vstd::prelude::*;

verus! {

// ---- numbers ------------------------------------------------------------

/// A NaN is what has all ones in its exponent field and something in its fraction
/// field.
pub proof fn law_nan_fields(a: F32, r: bool)
    requires
        call_ensures(F32::is_nan, (a,), r),
    ensures
        r <==> (a.bits / 0x80_0000) % 0x100 == 0xff && a.bits % 0x80_0000 != 0,
        a.spec_is_nan() == r,
{
}

/// A number is finite unless its exponent field is all ones.
pub proof fn law_finite_fields(a: F32, r: bool)
    requires
        call_ensures(F32::is_finite, (a,), r),
    ensures
        r <==> (a.bits / 0x80_0000) % 0x100 != 0xff,
        a.spec_is_finite() == r,
{
}

/// Numbers are ordered as their bit patterns are: positive ones upwards, negative ones
/// downwards, positive ones above negative ones, and the two zeros level.
pub proof fn law_order_of_bits(a: F32, b: F32, r: bool)
    requires
        call_ensures(F32::at_least, (a, b), r),
    ensures
        a.spec_at_least(b) == r,
        a.spec_is_nan() || b.spec_is_nan() ==> !r,
        !a.spec_is_nan() && !b.spec_is_nan() && a.bits < 0x8000_0000 && b.bits < 0x8000_0000 ==> (r
            <==> a.bits >= b.bits),
        !a.spec_is_nan() && !b.spec_is_nan() && a.bits >= 0x8000_0000 && b.bits >= 0x8000_0000 ==> (
        r <==> a.bits <= b.bits),
        !a.spec_is_nan() && !b.spec_is_nan() && a.bits < 0x8000_0000 && b.bits >= 0x8000_0000 ==> r,
        !a.spec_is_nan() && !b.spec_is_nan() && a.bits >= 0x8000_0000 && b.bits < 0x8000_0000 ==> (r
            <==> a.bits == 0x8000_0000 && b.bits == 0),
{
    number::lemma_units_order(a.magnitude(), b.magnitude());
    number::lemma_units_order(b.magnitude(), a.magnitude());
    number::lemma_units_order(0, a.magnitude());
    number::lemma_units_order(0, b.magnitude());
}

/// Two bit patterns are the same number if they are equal, or both are zeros, unless
/// they are NaNs.
pub proof fn law_equal_numbers(a: F32, b: F32)
    ensures
        a.same_number(b) <==> !a.spec_is_nan() && !b.spec_is_nan() && (a.bits == b.bits || (a.bits
            % 0x8000_0000 == 0 && b.bits % 0x8000_0000 == 0)),
{
    number::lemma_units_order(a.magnitude(), b.magnitude());
    number::lemma_units_order(b.magnitude(), a.magnitude());
    number::lemma_units_order(0, a.magnitude());
    number::lemma_units_order(0, b.magnitude());
}

/// From one bit pattern to the next, a number grows by the step of its exponent: one
/// unit where the exponent field is zero or one, twice as much with every exponent
/// after that. Zero is no units, and the sign turns a number round.
pub proof fn law_steps_between_numbers(a: F32, b: F32, c: F32)
    requires
        a.bits < 0x7f80_0000,
        b.bits == a.bits + 1,
        c.bits == a.bits + 0x8000_0000,
    ensures
        b.units() - a.units() == power2::pow2(
            (if a.bits < 0x100_0000 {
                0
            } else {
                a.bits / 0x80_0000 - 1
            }) as nat,
        ),
        a.bits == 0 ==> a.units() == 0,
        c.units() == -a.units(),
{
    let m = a.magnitude();
    let e = m / 0x80_0000;
    let f = m % 0x80_0000;
    power2::lemma2_to64();
    assert(c.magnitude() == m);
    assert(b.magnitude() == m + 1);
    if f < 0x7f_ffff {
        assert((m + 1) / 0x80_0000 == e);
        assert((m + 1) % 0x80_0000 == f + 1);
        if e > 0 {
            let p = power2::pow2((e - 1) as nat) as int;
            assert((0x80_0000 + f + 1) * p - (0x80_0000 + f) * p == p) by (nonlinear_arith);
        }
    } else {
        assert((m + 1) / 0x80_0000 == e + 1);
        assert((m + 1) % 0x80_0000 == 0);
        if e > 0 {
            power2::lemma_pow2_unfold(e as nat);
            let p = power2::pow2((e - 1) as nat) as int;
            assert(0x80_0000 * (2 * p) - (0x80_0000 + 0x7f_ffff) * p == p) by (nonlinear_arith);
        }
    }
}

/// A number stands for itself, and everything else for what the host makes of exactly
/// that formula.
pub proof fn law_host_is_asked<E: Fn(Scalar) -> F32>(eval: &E, s: Scalar, v: F32)
    requires
        call_ensures(number::resolve::<E>, (eval, s), v),
    ensures
        s matches Scalar::Value(x) ==> v == x,
        !(s is Value) ==> call_ensures(*eval, (s,), v),
        number::resolves(*eval, s, v),
{
}

// ---- values, forces and nodes -------------------------------------------

/// An item's value is the constant, or its own entry.
pub proof fn law_value_of_item(v: &Values, i: usize, r: F32)
    requires
        call_ensures(Values::get, (v, i), r),
    ensures
        *v matches Values::Constant(c) ==> r == c,
        *v matches Values::Each(all) ==> r == all@[i as int],
        v.at(i as int) == r,
{
}

/// The list of values has each item's value in its place, and nothing else.
pub proof fn law_list_of_values(v: &Values, n: usize, r: Vec<F32>)
    requires
        call_ensures(Values::to_vec, (v, n), r),
        v.fits(n as int),
    ensures
        r@.len() == n,
        *v matches Values::Constant(c) ==> forall|i: int| 0 <= i < n ==> #[trigger] r@[i] == c,
        *v matches Values::Each(all) ==> r@ == all@,
{
    if let Values::Each(all) = *v {
        assert(r@ =~= all@);
    }
}

/// A constant has a value for any number of items, a list for exactly its own.
pub proof fn law_values_for_items(v: &Values, n: usize, r: bool)
    requires
        call_ensures(Values::has, (v, n), r),
    ensures
        *v is Constant ==> r,
        *v matches Values::Each(all) ==> (r <==> all@.len() == n),
        v.fits(n as int) == r,
{
}

/// Same values serve the same items with the same numbers.
pub proof fn law_same_values(v: Values, w: Values, n: int, i: int)
    requires
        v.same(w),
    ensures
        v is Constant <==> w is Constant,
        v.fits(n) == w.fits(n),
        v.at(i) == w.at(i),
{
}

/// A copy of values serves the same items with the same numbers.
pub proof fn law_copied_values(v: &Values, r: Values, n: int, i: int)
    requires
        call_ensures(Values::duplicate, (v,), r),
    ensures
        *v is Constant <==> r is Constant,
        v.fits(n) == r.fits(n),
        v.at(i) == r.at(i),
        r.same(*v),
{
}

/// Each kind is the kind of exactly one sort of force.
pub proof fn law_kinds(f: &ForceSpec, r: Kind)
    requires
        call_ensures(ForceSpec::kind, (f,), r),
    ensures
        r == f.spec_kind(),
        r == Kind::ManyBody <==> *f is ManyBody,
        r == Kind::Link <==> *f is Link,
        r == Kind::Collide <==> *f is Collide,
        r == Kind::X <==> *f is X,
        r == Kind::Y <==> *f is Y,
        r == Kind::Center <==> *f is Center,
        r == Kind::Radial <==> *f is Radial,
{
}

/// A force that is made with defaults has what it was made with in its place, d3's
/// defaults elsewhere, and is of its own sort.
pub proof fn law_default_forces<T: Into<Values>>(
    v: T,
    links: Vec<(u32, u32)>,
    p: F32,
    q: F32,
    charge: ForceSpec,
    springs: ForceSpec,
    circles: ForceSpec,
    across: ForceSpec,
    down: ForceSpec,
    middle: ForceSpec,
)
    requires
        call_ensures(ForceSpec::many_body, (v,), charge),
        call_ensures(ForceSpec::link, (links,), springs),
        call_ensures(ForceSpec::collide, (v,), circles),
        call_ensures(ForceSpec::x, (v,), across),
        call_ensures(ForceSpec::y, (v,), down),
        call_ensures(ForceSpec::center, (p, q), middle),
    ensures
        charge matches ForceSpec::ManyBody { strength, theta, distance_min, distance_max } && {
            &&& call_ensures(Into::<Values>::into, (v,), strength)
            &&& theta == (F32 { bits: 0x3f66_6666 })
            &&& distance_min == (F32 { bits: 0x3f80_0000 })
            &&& distance_max == (F32 { bits: 0x7f80_0000 })
        },
        springs matches ForceSpec::Link { links: l, distance, strength, iterations } && {
            &&& l == links
            &&& distance == Values::Constant(F32 { bits: 0x41f0_0000 })
            &&& strength is None
            &&& iterations == 1
        },
        circles matches ForceSpec::Collide { radius, strength, iterations } && {
            &&& call_ensures(Into::<Values>::into, (v,), radius)
            &&& strength == (F32 { bits: 0x3f80_0000 })
            &&& iterations == 1
        },
        across matches ForceSpec::X { x, strength } && {
            &&& call_ensures(Into::<Values>::into, (v,), x)
            &&& strength == Values::Constant(F32 { bits: 0x3dcc_cccd })
        },
        down matches ForceSpec::Y { y, strength } && {
            &&& call_ensures(Into::<Values>::into, (v,), y)
            &&& strength == Values::Constant(F32 { bits: 0x3dcc_cccd })
        },
        middle matches ForceSpec::Center { x, y, strength } && {
            &&& x == p
            &&& y == q
            &&& strength == (F32 { bits: 0x3f80_0000 })
        },
{
}

/// Adding a force puts it last, under its name, and changes nothing else.
pub proof fn law_added_force<T: Into<String>>(
    config: Config,
    name: T,
    force: ForceSpec,
    r: Config,
    k: int,
)
    requires
        call_ensures(Config::force, (config, name, force), r),
    ensures
        r.forces@.len() == config.forces@.len() + 1,
        r.forces@.last().1 == force,
        call_ensures(Into::<String>::into, (name,), r.forces@.last().0),
        0 <= k < config.forces@.len() ==> r.forces@[k] == config.forces@[k],
        r.alpha == config.alpha,
        r.alpha_min == config.alpha_min,
        r.alpha_decay == config.alpha_decay,
        r.alpha_target == config.alpha_target,
        r.velocity_decay == config.velocity_decay,
{
    assert(r.forces@.drop_last() == config.forces@);
    if 0 <= k < config.forces@.len() {
        assert(r.forces@.drop_last()[k] == r.forces@[k]);
    }
}

/// A number is taken as one value for all, a list as one value for each.
pub proof fn law_values_from(v: F32, all: Vec<F32>)
    ensures
        <Values as vstd::std_specs::convert::FromSpec<F32>>::from_spec(v) == Values::Constant(v),
        <Values as vstd::std_specs::convert::FromSpec<Vec<F32>>>::from_spec(all) == Values::Each(
            all,
        ),
{
}

/// An unset node has nothing set, and a placed one only its position.
pub proof fn law_unset_nodes(x: F32, y: F32, r: NodeInit)
    requires
        call_ensures(NodeInit::at, (x, y), r),
    ensures
        NodeInit::unset().x.spec_is_nan(),
        NodeInit::unset().y.spec_is_nan(),
        NodeInit::unset().fx.spec_is_nan(),
        NodeInit::unset().fy.spec_is_nan(),
        r.x == x,
        r.y == y,
        r.fx.spec_is_nan(),
        r.fy.spec_is_nan(),
{
}

// ---- texts and adapters -------------------------------------------------

/// The count that a run of digits spells.
pub open spec fn spelled(text: Seq<char>) -> int
    decreases text.len(),
{
    if text.len() == 0 {
        0
    } else {
        10 * spelled(text.drop_last()) + (text.last() as int - '0' as int)
    }
}

/// Whether a text is a count in its shortest form: digits, without leading zeros.
pub open spec fn count_text(text: Seq<char>) -> bool {
    &&& text.len() > 0
    &&& forall|k: int| 0 <= k < text.len() ==> '0' <= #[trigger] text[k] <= '9'
    &&& text[0] == '0' ==> text.len() == 1
}

proof fn lemma_decimal(n: nat)
    ensures
        count_text(adapter::decimal(n)),
        spelled(adapter::decimal(n)) == n,
        n > 0 ==> adapter::decimal(n)[0] != '0',
    decreases n,
{
    let text = adapter::decimal(n);
    if n < 10 {
        assert(text.drop_last() =~= Seq::<char>::empty());
        assert(spelled(text.drop_last()) == 0);
    } else {
        lemma_decimal(n / 10);
        assert(text.drop_last() =~= adapter::decimal(n / 10));
        let head = adapter::decimal(n / 10);
        assert(text[0] == head[0]);
        assert forall|k: int| 0 <= k < text.len() implies '0' <= #[trigger] text[k] <= '9' by {
            if k < head.len() {
                assert(text[k] == head[k]);
            }
        }
    }
}

/// A count that is written down reads back as itself, in its shortest form.
pub proof fn law_count_reads_back(n: u32, r: String)
    requires
        call_ensures(adapter::decimal_text, (n,), r),
    ensures
        count_text(r@),
        spelled(r@) == n,
{
    lemma_decimal(n as nat);
}

/// The text of a stray link names its source, then its target.
pub open spec fn names_link(text: Seq<char>, link: (u32, u32)) -> bool {
    exists|s: Seq<char>, t: Seq<char>|
        {
            &&& #[trigger] count_text(s)
            &&& #[trigger] count_text(t)
            &&& spelled(s) == link.0
            &&& spelled(t) == link.1
            &&& text == "link endpoint out of range ("@ + s + ", "@ + t + ")"@
        }
}

pub(crate) proof fn lemma_names_link(link: (u32, u32))
    ensures
        names_link(adapter::endpoint_text(link), link),
{
    lemma_decimal(link.0 as nat);
    lemma_decimal(link.1 as nat);
    assert(count_text(adapter::decimal(link.0 as nat)));
    assert(count_text(adapter::decimal(link.1 as nat)));
}

/// The error for a stray link says which link it is.
pub proof fn law_stray_link_is_named(link: (u32, u32), r: GpuError)
    requires
        call_ensures(adapter::endpoint_error, (link,), r),
    ensures
        r matches GpuError::Unsupported(text) && names_link(text@, link),
{
    lemma_names_link(link);
}

/// A message is a fixed beginning, and then the reason unchanged.
pub proof fn law_messages(e: &GpuError, r: String)
    requires
        call_ensures(GpuError::message, (e,), r),
    ensures
        *e is NoAdapter ==> r@ == "no compatible GPU adapter found"@,
        *e matches GpuError::Device(why) ==> r@ == "device request failed: "@ + why@,
        *e matches GpuError::Unsupported(why) ==> r@ == "unsupported configuration: "@ + why@,
{
}

/// An adapter is a software one exactly if it is made of a CPU.
pub proof fn law_software_adapters(
    name: String,
    interface: Interface,
    device_type: DeviceType,
    r: AdapterInfo,
)
    requires
        call_ensures(AdapterInfo::describe, (name, interface, device_type), r),
    ensures
        r.software <==> device_type is Cpu,
        r.name == name,
{
}

/// A search gives a device exactly if there was an adapter and it opened; it gives that
/// adapter. Without an adapter there is no other reason, and a device that does not open
/// keeps its own.
pub proof fn law_search(
    adapter: Option<AdapterInfo>,
    device: Result<(), String>,
    r: Result<Gpu, GpuError>,
    found: Option<AdapterInfo>,
)
    requires
        call_ensures(Gpu::acquire, (adapter, device), r),
        call_ensures(adapter::probe, (r,), found),
    ensures
        r is Ok <==> adapter is Some && device is Ok,
        r matches Ok(gpu) ==> adapter == Some(gpu.info) && found == Some(gpu.info),
        r is Err ==> found is None,
        adapter is None ==> r matches Err(GpuError::NoAdapter),
        adapter is Some && device is Err ==> (r matches Err(GpuError::Device(why)) && device
            == Err::<(), String>(why)),
{
}

// ---- bytes --------------------------------------------------------------

/// Whether the four bytes at `at` are those of a word, its lowest byte first.
pub open spec fn lowest_first(bytes: Seq<u8>, at: int, word: u32) -> bool {
    &&& bytes[at] == word % 0x100
    &&& bytes[at + 1] == word / 0x100 % 0x100
    &&& bytes[at + 2] == word / 0x1_0000 % 0x100
    &&& bytes[at + 3] == word / 0x100_0000
}

/// Whether the four bytes at `at` are those of a word, its highest byte first.
pub open spec fn highest_first(bytes: Seq<u8>, at: int, word: u32) -> bool {
    &&& bytes[at] == word / 0x100_0000
    &&& bytes[at + 1] == word / 0x1_0000 % 0x100
    &&& bytes[at + 2] == word / 0x100 % 0x100
    &&& bytes[at + 3] == word % 0x100
}

proof fn lemma_word(word: u32, b0: u8, b1: u8, b2: u8, b3: u8)
    requires
        word == b0 + 0x100 * b1 + 0x1_0000 * b2 + 0x100_0000 * b3,
    ensures
        b0 == word % 0x100,
        b1 == word / 0x100 % 0x100,
        b2 == word / 0x1_0000 % 0x100,
        b3 == word / 0x100_0000,
{
    assert(word / 0x100 == b1 + 0x100 * b2 + 0x1_0000 * b3);
    assert(word / 0x1_0000 == b2 + 0x100 * b3);
}

/// Bytes that spell words are their bytes in one order, each word in its place.
pub proof fn law_spelled_words(bytes: Seq<u8>, words: Seq<u32>)
    requires
        bytes::spells(bytes, words),
    ensures
        bytes.len() == 4 * words.len(),
        (forall|i: int| 0 <= i < words.len() ==> lowest_first(bytes, 4 * i, #[trigger] words[i]))
            || (forall|i: int|
            0 <= i < words.len() ==> highest_first(bytes, 4 * i, #[trigger] words[i])),
{
    if bytes::holds_words(bytes, words, true) {
        assert forall|i: int| 0 <= i < words.len() implies lowest_first(
            bytes,
            4 * i,
            #[trigger] words[i],
        ) by {
            let at = 4 * i;
            lemma_word(words[i], bytes[at], bytes[at + 1], bytes[at + 2], bytes[at + 3]);
        }
    } else {
        assert forall|i: int| 0 <= i < words.len() implies highest_first(
            bytes,
            4 * i,
            #[trigger] words[i],
        ) by {
            let at = 4 * i;
            lemma_word(words[i], bytes[at + 3], bytes[at + 2], bytes[at + 1], bytes[at]);
        }
    }
}

/// Words are sent, and read back, as bytes that spell them.
pub proof fn law_words_and_bytes(words: &[u32], sent: Vec<u8>, read: &[u8], r: Option<Vec<u32>>)
    requires
        call_ensures(bytes::word_bytes, (words,), sent),
        call_ensures(bytes::byte_words, (read,), r),
    ensures
        bytes::spells(sent@, words@),
        r is Some <==> read@.len() % 4 == 0,
        r matches Some(back) ==> bytes::spells(read@, back@),
{
}

/// What is sent for a run of words has each count as it is, each number as its bits, and
/// each formula as the bits of what the host makes of it, all in their places.
pub proof fn law_sent_words<E: Fn(Scalar) -> F32>(eval: E, words: Seq<Word>, bytes: Seq<u8>)
    requires
        bytes::sent_for(eval, words, bytes),
    ensures
        exists|bits: Seq<u32>|
            {
                &&& #[trigger] bytes::spells(bytes, bits)
                &&& bits.len() == words.len()
                &&& forall|i: int|
                    0 <= i < words.len() ==> {
                        &&& words[i] matches Word::Count(n) ==> #[trigger] bits[i] == n
                        &&& words[i] matches Word::Number(Scalar::Value(x)) ==> bits[i] == x.bits
                        &&& words[i] matches Word::Number(s) ==> s is Value || call_ensures(
                            eval,
                            (s,),
                            F32 { bits: bits[i] },
                        )
                    }
            },
{
    let bits = choose|bits: Seq<u32>| #[trigger]
        bytes::words_come_to(eval, words, bits) && bytes::spells(bytes, bits);
    assert forall|i: int| 0 <= i < words.len() implies {
        &&& words[i] matches Word::Count(n) ==> #[trigger] bits[i] == n
        &&& words[i] matches Word::Number(Scalar::Value(x)) ==> bits[i] == x.bits
        &&& words[i] matches Word::Number(s) ==> s is Value || call_ensures(
            eval,
            (s,),
            F32 { bits: bits[i] },
        )
    } by {
        assert(bytes::word_comes_to(eval, words[i], bits[i]));
    }
}

/// Formulas are sent one word each, and numbers as their bits, in order.
pub proof fn law_sent_numbers<E: Fn(Scalar) -> F32>(
    eval: &E,
    formulas: &Vec<Scalar>,
    sent: Vec<u8>,
    numbers: &Vec<F32>,
    values: Vec<u8>,
)
    requires
        call_ensures(bytes::send_numbers::<E>, (eval, formulas), sent),
        call_ensures(bytes::value_bytes, (numbers,), values),
    ensures
        exists|words: Seq<Word>|
            {
                &&& #[trigger] bytes::sent_for(*eval, words, sent@)
                &&& words.len() == formulas@.len()
                &&& forall|i: int|
                    0 <= i < words.len() ==> #[trigger] words[i] == Word::Number(formulas@[i])
            },
        exists|bits: Seq<u32>|
            {
                &&& #[trigger] bytes::spells(values@, bits)
                &&& bits.len() == numbers@.len()
                &&& forall|i: int| 0 <= i < bits.len() ==> #[trigger] bits[i] == numbers@[i].bits
            },
{
    assert(bytes::sent_for(*eval, bytes::number_words(formulas@), sent@));
    assert(bytes::spells(values@, bytes::bits_of(numbers@)));
}

// ---- links --------------------------------------------------------------

/// Links stay among the nodes `0..n` if all their ends do.
pub proof fn law_links_in_range(links: Seq<(u32, u32)>, n: int)
    ensures
        graph::in_range(links, n) <==> forall|e: int|
            0 <= e < links.len() ==> (#[trigger] links[e]).0 < n && links[e].1 < n,
{
    if graph::in_range(links, n) {
        assert forall|e: int| 0 <= e < links.len() implies (#[trigger] links[e]).0 < n && links[e].1
            < n by {
            assert(graph::link_in_range(links, n, e));
        }
    } else {
        let e = choose|e: int|
            0 <= e < links.len() && !#[trigger] graph::link_in_range(links, n, e);
        assert(!(links[e].0 < n && links[e].1 < n));
    }
}

/// The first stray link is found: it has an end outside, and no link before it has.
pub proof fn law_first_stray_link(links: &Vec<(u32, u32)>, n: usize, r: Option<usize>)
    requires
        call_ensures(graph::first_out_of_range, (links, n), r),
    ensures
        r matches Some(e) ==> {
            &&& e < links@.len()
            &&& links@[e as int].0 >= n || links@[e as int].1 >= n
            &&& forall|d: int|
                0 <= d < e ==> (#[trigger] links@[d]).0 < n && links@[d].1 < n
        },
        r is None ==> forall|d: int|
            0 <= d < links@.len() ==> (#[trigger] links@[d]).0 < n && links@[d].1 < n,
{
    if let Some(e) = r {
        assert forall|d: int| 0 <= d < e implies (#[trigger] links@[d]).0 < n && links@[d].1
            < n by {
            assert(graph::link_in_range(links@, n as int, d));
        }
    } else {
        law_links_in_range(links@, n as int);
    }
}

proof fn lemma_incident_prefix(links: Seq<(u32, u32)>, link: (u32, u32), v: int, j: nat)
    requires
        j <= 2 * links.len(),
    ensures
        graph::incident_upto(links.push(link), v, j) == graph::incident_upto(links, v, j),
    decreases j,
{
    if j > 0 {
        lemma_incident_prefix(links, link, v, (j - 1) as nat);
        assert(links.push(link)[(j - 1) / 2] == links[(j - 1) / 2]);
    }
}

/// Adding a link adds it to the links of its source, then to those of its target, and to
/// no others. Without links there are none.
pub proof fn law_added_link(links: Seq<(u32, u32)>, link: (u32, u32), v: int)
    ensures
        graph::incident(Seq::empty(), v) == Seq::<u32>::empty(),
        ({
            let e = links.len() as u32;
            graph::incident(links.push(link), v) == graph::incident(links, v) + (if link.0 == v
                && link.1 == v {
                seq![e, e]
            } else if link.0 == v || link.1 == v {
                seq![e]
            } else {
                Seq::empty()
            })
        }),
{
    let all = links.push(link);
    let m = links.len();
    let e = m as u32;
    lemma_incident_prefix(links, link, v, 2 * m);
    let none = Seq::<(u32, u32)>::empty();
    assert(graph::incident_upto(none, v, 0) =~= Seq::<u32>::empty());
    let a = graph::incident_upto(all, v, 2 * m);
    let b = graph::incident_upto(all, v, (2 * m + 1) as nat);
    let c = graph::incident_upto(all, v, (2 * m + 2) as nat);
    assert(all[((2 * m) / 2) as int] == link);
    assert(all[((2 * m + 1) / 2) as int] == link);
    assert((2 * m) % 2 == 0 && (2 * m + 1) % 2 == 1);
    assert(b =~= if link.0 == v {
        a.push(e)
    } else {
        a
    });
    assert(c =~= if link.1 == v {
        b.push(e)
    } else {
        b
    });
    assert(2 * all.len() == 2 * m + 2);
    assert(graph::incident(all, v) == c);
    assert(graph::incident(all, v) =~= graph::incident(links, v) + (if link.0 == v && link.1 == v {
        seq![e, e]
    } else if link.0 == v || link.1 == v {
        seq![e]
    } else {
        Seq::empty()
    }));
}

/// The degree of a node counts link ends: each link adds one for its source and one for
/// its target.
pub proof fn law_degree_counts_ends(links: Seq<(u32, u32)>, link: (u32, u32), v: int)
    ensures
        graph::degree(Seq::empty(), v) == 0,
        graph::degree(links.push(link), v) == graph::degree(links, v) + (if link.0 == v {
            1int
        } else {
            0
        }) + (if link.1 == v {
            1int
        } else {
            0
        }),
{
    law_added_link(links, link, v);
}

/// Degrees do not know which end of a link is its source.
pub proof fn law_degree_undirected(
    links: Seq<(u32, u32)>,
    turned: Seq<(u32, u32)>,
    v: int,
)
    requires
        links.len() == turned.len(),
        forall|e: int|
            0 <= e < links.len() ==> #[trigger] turned[e] == links[e] || turned[e] == (
                links[e].1,
                links[e].0,
            ),
    ensures
        graph::degree(turned, v) == graph::degree(links, v),
    decreases links.len(),
{
    if links.len() > 0 {
        let m = links.len() - 1;
        assert forall|e: int| 0 <= e < m implies #[trigger] turned.drop_last()[e]
            == links.drop_last()[e] || turned.drop_last()[e] == (
            links.drop_last()[e].1,
            links.drop_last()[e].0,
        ) by {
            assert(turned[e] == links[e] || turned[e] == (links[e].1, links[e].0));
        }
        law_degree_undirected(links.drop_last(), turned.drop_last(), v);
        assert(turned[m] == links[m] || turned[m] == (links[m].1, links[m].0));
        law_degree_counts_ends(links.drop_last(), links[m], v);
        law_degree_counts_ends(turned.drop_last(), turned[m], v);
        assert(links.drop_last().push(links[m]) =~= links);
        assert(turned.drop_last().push(turned[m]) =~= turned);
    } else {
        assert(links =~= turned);
    }
}

/// Counted degrees are degrees, one for each node.
pub proof fn law_counted_degrees(links: &Vec<(u32, u32)>, n: usize, r: Vec<u32>)
    requires
        call_ensures(graph::degrees, (links, n), r),
    ensures
        r@.len() == n,
        forall|v: int| 0 <= v < n ==> #[trigger] r@[v] == graph::degree(links@, v),
{
}

/// An adjacency lists, for each node, the links with an end there: rows begin at zero,
/// follow one another, are as long as the degrees, and end with all ends listed; what a
/// row lists are the links of its node, in order.
pub proof fn law_adjacency_lists_links(
    links: &Vec<(u32, u32)>,
    n: usize,
    r: Adjacency,
    v: int,
    p: int,
)
    requires
        call_ensures(graph::adjacency, (links, n), r),
        graph::in_range(links@, n as int),
        links@.len() <= u32::MAX,
        0 <= v < n,
    ensures
        r.ptr@.len() == n + 1,
        r.idx@.len() == 2 * links@.len(),
        r.ptr@[0] == 0,
        r.ptr@[v + 1] - r.ptr@[v] == graph::degree(links@, v),
        r.ptr@[n as int] == 2 * links@.len(),
        r.ptr@[v] <= p < r.ptr@[v + 1] ==> {
            &&& r.idx@[p] == graph::incident(links@, v)[p - r.ptr@[v]]
            &&& r.idx@[p] < links@.len()
            &&& links@[r.idx@[p] as int].0 == v || links@[r.idx@[p] as int].1 == v
        },
{
    graph::law_rows_partition(links@, n as int, v);
    assert(r.represents(links@, n as int));
    assert(r.ptr@[0] == graph::offset(links@, 0));
    assert(r.ptr@[v] == graph::offset(links@, v));
    assert(r.ptr@[v + 1] == graph::offset(links@, v + 1));
    assert(r.ptr@[n as int] == graph::offset(links@, n as int));
    if r.ptr@[v] <= p < r.ptr@[v + 1] {
        let k = p - r.ptr@[v];
        assert(r.row(v) == graph::incident(links@, v));
        assert(r.row(v)[k] == r.idx@[p]);
        lemma_incident_bound(links@, v, k, 2 * links@.len());
        let e = r.idx@[p];
        assert(graph::incident(links@, v).contains(e));
        graph::law_row_lists_links(links@, v, e as int);
    }
}

proof fn lemma_incident_bound(links: Seq<(u32, u32)>, v: int, k: int, j: nat)
    requires
        links.len() <= u32::MAX,
        j <= 2 * links.len(),
        0 <= k < graph::incident_upto(links, v, j).len(),
    ensures
        graph::incident_upto(links, v, j)[k] < links.len(),
    decreases j,
{
    if j > 0 {
        let before = graph::incident_upto(links, v, (j - 1) as nat);
        if k < before.len() {
            lemma_incident_bound(links, v, k, (j - 1) as nat);
        }
    }
}

} // verus!
