//! A JPEG carrier as the codec sees it: the quantized DCT coefficients of its
//! components, block after block, 64 to a block.

use vstd::prelude::*;
use crate::error::Error;
use crate::options::EmbedConfig;
use crate::options::ExtraArgs;
use crate::sample::outside;
use crate::sample::window_mask;

verus! {

/// One color component of a JPEG image as contracts see it.
pub struct ComponentView {
    pub width_in_blocks: u32,
    pub height_in_blocks: u32,
    pub coefs: Seq<i16>,
}

/// One color component of a JPEG image: its size in blocks and its
/// coefficients, block row by block row, within a row block by block, within
/// a block in the order the file stores them.
#[derive(Debug)]
pub struct Component {
    width_in_blocks: u32,
    height_in_blocks: u32,
    coefs: Vec<i16>,
}

impl View for Component {
    type V = ComponentView;

    closed spec fn view(&self) -> ComponentView {
        ComponentView {
            width_in_blocks: self.width_in_blocks,
            height_in_blocks: self.height_in_blocks,
            coefs: self.coefs@,
        }
    }
}

impl Component {
    /// A component has 64 coefficients for each of its blocks.
    #[verifier::type_invariant]
    spec fn complete(&self) -> bool {
        self.coefs@.len() == self.height_in_blocks * self.width_in_blocks * 64
    }

    /// A component from its parts, if there are 64 coefficients for each
    /// block.
    pub fn new(width_in_blocks: u32, height_in_blocks: u32, coefs: Vec<i16>) -> (r: Result<Component, Error>)
        ensures
            match r {
                Ok(c) => {
                    &&& c@ == (ComponentView { width_in_blocks, height_in_blocks, coefs: coefs@ })
                    &&& coefs@.len() == height_in_blocks * width_in_blocks * 64
                },
                Err(e) => {
                    &&& e == Error::UnsupportedFormat
                    &&& coefs@.len() != height_in_blocks * width_in_blocks * 64
                },
            },
    {
        assert(0 <= height_in_blocks * width_in_blocks <= 0xffff_ffff * 0xffff_ffff) by (nonlinear_arith)
            requires
                0 <= width_in_blocks <= 0xffff_ffff,
                0 <= height_in_blocks <= 0xffff_ffff,
        ;
        let expected: u128 = (height_in_blocks as u128) * (width_in_blocks as u128) * 64;
        if coefs.len() as u128 != expected {
            return Err(Error::UnsupportedFormat);
        }
        Ok(Component { width_in_blocks, height_in_blocks, coefs })
    }

    /// How many blocks a row of the component has.
    pub fn width_in_blocks(&self) -> (w: u32)
        ensures
            w == self@.width_in_blocks,
    {
        self.width_in_blocks
    }

    /// How many rows of blocks the component has.
    pub fn height_in_blocks(&self) -> (h: u32)
        ensures
            h == self@.height_in_blocks,
    {
        self.height_in_blocks
    }

    /// The component's coefficients: 64 for each block.
    pub fn coefs(&self) -> (c: &Vec<i16>)
        ensures
            c@ == self@.coefs,
            c@.len() == self@.height_in_blocks * self@.width_in_blocks * 64,
    {
        proof {
            use_type_invariant(self);
        }
        &self.coefs
    }
}

/// The coefficients of the first `n` components, one component after the
/// other.
pub open spec fn joined(components: Seq<Component>, n: nat) -> Seq<i16>
    decreases n,
{
    if n == 0 {
        Seq::<i16>::empty()
    } else {
        joined(components, (n - 1) as nat) + components[n - 1]@.coefs
    }
}

/// The coefficients that a walk goes over: those of the one component asked
/// for, if there is such a component, or those of all components in their
/// order.
pub open spec fn selected(components: Seq<Component>, comp: Option<u8>) -> Result<Seq<i16>, Error> {
    match comp {
        Some(c) => if c < components.len() {
            Ok(components[c as int]@.coefs)
        } else {
            Err(Error::InvalidParameters)
        },
        None => Ok(joined(components, components.len())),
    }
}

/// The value `bits << depth` that selective mode looks for.
pub open spec fn mark(cfg: EmbedConfig) -> u16 {
    (cfg.bits as u16) << (cfg.depth as u16)
}

/// Whether selective mode passes over the coefficient `coef` at place `idx`
/// of its block: the first of a block, a zero and a `bits << depth` are
/// passed over. Without selective mode none is.
pub open spec fn skips(cfg: EmbedConfig, idx: int, coef: i16) -> bool {
    cfg.selective && (idx == 0 || coef == 0 || coef as int == mark(cfg) as int)
}

proof fn lemma_mark_small(b: u16, d: u16)
    by (bit_vector)
    requires
        1 <= b,
        d + b <= 8,
    ensures
        (b << d) < 256,
{
}

/// Whether selective mode passes over a coefficient; see [`skips`].
pub fn selective_check(extra: &ExtraArgs, idx: usize, coef: i16) -> (skip: bool)
    requires
        extra@.valid(),
    ensures
        skip == skips(extra@, idx as int, coef),
{
    if !extra.selective {
        return false;
    }
    proof {
        lemma_mark_small(extra.bits as u16, extra.depth as u16);
    }
    let mark: u16 = (extra.bits as u16) << (extra.depth as u16);
    idx == 0 || coef == 0 || coef == mark as i16
}

/// The places, among the first `n` coefficients, of those that take part in
/// a walk: all that selective mode does not pass over, in their order.
pub open spec fn visible(coefs: Seq<i16>, cfg: EmbedConfig, n: nat) -> Seq<int>
    decreases n,
{
    if n == 0 {
        Seq::<int>::empty()
    } else {
        let before = visible(coefs, cfg, (n - 1) as nat);
        if skips(cfg, (n - 1) % 64, coefs[n - 1]) {
            before
        } else {
            before.push(n - 1)
        }
    }
}

/// The places of all coefficients that take part in a walk.
pub open spec fn positions(coefs: Seq<i16>, cfg: EmbedConfig) -> Seq<int> {
    visible(coefs, cfg, coefs.len())
}

/// The low byte of a coefficient: the part of it that a walk reads and
/// writes.
pub open spec fn low_byte(coef: i16) -> u8 {
    (coef & 0xffi16) as u8
}

/// A coefficient with its low byte replaced.
pub open spec fn with_low_byte(coef: i16, byte: u8) -> i16 {
    (coef & !0xffi16) | (byte as i16)
}

/// The carrier that a walk goes over: the low byte of each coefficient that
/// takes part.
pub open spec fn surface(coefs: Seq<i16>, places: Seq<int>) -> Seq<u8> {
    Seq::new(places.len(), |i: int| low_byte(coefs[places[i]]))
}

/// The coefficients after the first `n` bytes of a carrier were put back as
/// the low bytes of the coefficients they came from.
pub open spec fn scattered(coefs: Seq<i16>, places: Seq<int>, bytes: Seq<u8>, n: nat) -> Seq<i16>
    decreases n,
{
    if n == 0 {
        coefs
    } else {
        scattered(coefs, places, bytes, (n - 1) as nat).update(
            places[n - 1],
            with_low_byte(coefs[places[n - 1]], bytes[n - 1]),
        )
    }
}

proof fn lemma_low_byte_ops(c: i16, b: u8)
    by (bit_vector)
    ensures
        0 <= (c & 0xffi16) < 256,
        (((c & !0xffi16) | (b as i16)) & 0xffi16) as u8 == b,
        (c & !0xffi16) | (((c & 0xffi16) as u8) as i16) == c,
{
}

/// A coefficient's low byte is the byte that was put there, and putting a
/// coefficient's own low byte back changes nothing.
pub proof fn lemma_low_byte(coef: i16, byte: u8)
    ensures
        low_byte(with_low_byte(coef, byte)) == byte,
        with_low_byte(coef, low_byte(coef)) == coef,
{
    lemma_low_byte_ops(coef, byte);
}

/// The places of the coefficients that take part are inside the carrier and
/// in rising order, and none of them is passed over.
pub proof fn lemma_visible(coefs: Seq<i16>, cfg: EmbedConfig, n: nat)
    requires
        n <= coefs.len(),
    ensures
        visible(coefs, cfg, n).len() <= n,
        forall|i: int|
            0 <= i < visible(coefs, cfg, n).len() ==> 0 <= #[trigger] visible(coefs, cfg, n)[i] < n && !skips(
                cfg,
                visible(coefs, cfg, n)[i] % 64,
                coefs[visible(coefs, cfg, n)[i]],
            ),
        forall|i: int, j: int|
            0 <= i < j < visible(coefs, cfg, n).len() ==> visible(coefs, cfg, n)[i] < visible(coefs, cfg, n)[j],
        forall|p: int|
            0 <= p < n && !skips(cfg, p % 64, coefs[p]) ==> exists|i: int|
                0 <= i < visible(coefs, cfg, n).len() && visible(coefs, cfg, n)[i] == p,
    decreases n,
{
    if n > 0 {
        lemma_visible(coefs, cfg, (n - 1) as nat);
        let before = visible(coefs, cfg, (n - 1) as nat);
        let now = visible(coefs, cfg, n);
        assert forall|p: int| 0 <= p < n && !skips(cfg, p % 64, coefs[p]) implies exists|i: int|
            0 <= i < now.len() && now[i] == p by {
            if p < n - 1 {
                let i = choose|i: int| 0 <= i < before.len() && before[i] == p;
                assert(now[i] == p);
            } else {
                assert(now[now.len() - 1] == p);
            }
        }
    }
}

/// Whether a coefficient has a bit set outside the window of its low byte.
/// Such a coefficient takes part whatever its window holds: it is neither 0
/// nor `bits << depth`.
pub open spec fn steady(cfg: EmbedConfig, coef: i16) -> bool {
    coef & !(window_mask(cfg.depth, cfg.bits) as i16) != 0
}

proof fn lemma_steady_ops(c: i16, nb: u8, b: u8, d: u8)
    by (bit_vector)
    requires
        1 <= b,
        d + b <= 8,
        nb & !((0xffu8 >> ((8u8 - b) as u8)) << d) == ((c & 0xffi16) as u8) & !((0xffu8 >> ((8u8 - b) as u8)) << d),
        c & !(((0xffu8 >> ((8u8 - b) as u8)) << d) as i16) != 0,
    ensures
        ((c & !0xffi16) | (nb as i16)) != 0,
        ((c & !0xffi16) | (nb as i16)) as int != ((b as u16) << (d as u16)) as int,
        ((c & !0xffi16) | (nb as i16)) & !(((0xffu8 >> ((8u8 - b) as u8)) << d) as i16) != 0,
{
}

proof fn lemma_one_bit_ops(c: i16, d: u8)
    by (bit_vector)
    requires
        d <= 7,
        c != 0,
        c as int != (1u16 << (d as u16)) as int,
    ensures
        c & !(((0xffu8 >> 7u8) << d) as i16) != 0,
{
}

/// A coefficient with a bit outside the window takes part, and still does
/// after its low byte was replaced by one that differs inside the window
/// only.
pub proof fn lemma_steady(cfg: EmbedConfig, idx: int, coef: i16, byte: u8)
    requires
        cfg.valid(),
        idx != 0 || !cfg.selective,
        steady(cfg, coef),
        outside(byte, cfg.depth, cfg.bits) == outside(low_byte(coef), cfg.depth, cfg.bits),
    ensures
        !skips(cfg, idx, coef),
        !skips(cfg, idx, with_low_byte(coef, byte)),
        steady(cfg, with_low_byte(coef, byte)),
{
    lemma_steady_ops(coef, byte, cfg.bits as u8, cfg.depth as u8);
    lemma_low_byte(coef, byte);
    lemma_steady_ops(coef, low_byte(coef), cfg.bits as u8, cfg.depth as u8);
}

/// With one bit a sample, every coefficient that takes part in selective
/// mode has a bit outside the window.
pub proof fn lemma_one_bit_steady(cfg: EmbedConfig, idx: int, coef: i16)
    requires
        cfg.valid(),
        cfg.bits == 1,
        cfg.selective,
        !skips(cfg, idx, coef),
    ensures
        steady(cfg, coef),
{
    lemma_one_bit_ops(coef, cfg.depth as u8);
}

/// What putting a carrier's bytes back leaves behind: the coefficients'
/// number; each coefficient that does not take part as it was; and each that
/// does with its byte of the carrier as its low byte.
pub proof fn lemma_scattered(coefs: Seq<i16>, places: Seq<int>, bytes: Seq<u8>, n: nat)
    requires
        n <= places.len(),
        forall|i: int| 0 <= i < places.len() ==> 0 <= #[trigger] places[i] < coefs.len(),
        forall|i: int, j: int| 0 <= i < j < places.len() ==> places[i] < places[j],
    ensures
        scattered(coefs, places, bytes, n).len() == coefs.len(),
        forall|i: int|
            0 <= i < n ==> scattered(coefs, places, bytes, n)[#[trigger] places[i]] == with_low_byte(
                coefs[places[i]],
                bytes[i],
            ),
        forall|p: int|
            0 <= p < coefs.len() && (forall|i: int| 0 <= i < n ==> places[i] != p) ==> #[trigger] scattered(
                coefs,
                places,
                bytes,
                n,
            )[p] == coefs[p],
    decreases n,
{
    if n > 0 {
        lemma_scattered(coefs, places, bytes, (n - 1) as nat);
        let before = scattered(coefs, places, bytes, (n - 1) as nat);
        let after = scattered(coefs, places, bytes, n);
        assert forall|i: int| 0 <= i < n implies after[#[trigger] places[i]] == with_low_byte(
            coefs[places[i]],
            bytes[i],
        ) by {
            if i < n - 1 {
                assert(places[i] < places[n - 1]);
            }
        }
    }
}

/// Coefficients that selective mode treats alike, place by place, have the
/// same places taking part.
pub proof fn lemma_visible_alike(a: Seq<i16>, b: Seq<i16>, cfg: EmbedConfig, n: nat)
    requires
        n <= a.len(),
        a.len() == b.len(),
        forall|p: int| 0 <= p < a.len() ==> skips(cfg, p % 64, #[trigger] a[p]) == skips(cfg, p % 64, b[p]),
    ensures
        visible(a, cfg, n) == visible(b, cfg, n),
    decreases n,
{
    if n > 0 {
        lemma_visible_alike(a, b, cfg, (n - 1) as nat);
        assert(skips(cfg, (n - 1) % 64, a[n - 1]) == skips(cfg, (n - 1) % 64, b[n - 1]));
    }
}

/// The low byte of a coefficient.
pub fn low(coef: i16) -> (b: u8)
    ensures
        b == low_byte(coef),
{
    proof {
        lemma_low_byte_ops(coef, 0);
    }
    (coef & 0xffi16) as u8
}

/// A coefficient with its low byte replaced.
pub fn with_low(coef: i16, byte: u8) -> (c: i16)
    ensures
        c == with_low_byte(coef, byte),
{
    (coef & !0xffi16) | (byte as i16)
}

/// The coefficients that a walk goes over.
#[derive(Clone, Debug)]
pub struct Blocks(Vec<i16>);

impl View for Blocks {
    type V = Seq<i16>;

    closed spec fn view(&self) -> Seq<i16> {
        self.0@
    }
}

impl Blocks {
    /// The coefficients as they were handed in.
    pub fn new(coefs: Vec<i16>) -> (b: Self)
        ensures
            b@ == coefs@,
    {
        Blocks(coefs)
    }

    /// The coefficients.
    pub fn inner(&self) -> (v: &Vec<i16>)
        ensures
            v@ == self@,
    {
        &self.0
    }

    /// The coefficients, given away.
    pub fn into_inner(self) -> (v: Vec<i16>)
        ensures
            v@ == self@,
    {
        self.0
    }

    /// The carrier that a walk goes over: the low bytes of the coefficients
    /// at `places`.
    pub fn gather(&self, places: &Vec<usize>) -> (bytes: Vec<u8>)
        requires
            forall|i: int| 0 <= i < places@.len() ==> places@[i] < self@.len(),
        ensures
            bytes@ == surface(self@, places@.map_values(|p: usize| p as int)),
    {
        let mut bytes: Vec<u8> = Vec::new();
        let mut i: usize = 0;
        let ghost at = places@.map_values(|p: usize| p as int);
        while i < places.len()
            invariant
                i <= places@.len(),
                at == places@.map_values(|p: usize| p as int),
                forall|i: int| 0 <= i < places@.len() ==> places@[i] < self@.len(),
                bytes@ == surface(self@, at).take(i as int),
            decreases places@.len() - i,
        {
            bytes.push(low(self.0[places[i]]));
            i = i + 1;
            assert(bytes@ =~= surface(self@, at).take(i as int));
        }
        assert(surface(self@, at).take(places@.len() as int) =~= surface(self@, at));
        bytes
    }

    /// The coefficients with the bytes of a carrier put back as the low
    /// bytes of the coefficients at `places`.
    pub fn scatter(&self, places: &Vec<usize>, bytes: &Vec<u8>) -> (b: Blocks)
        requires
            places@.len() == bytes@.len(),
            forall|i: int| 0 <= i < places@.len() ==> places@[i] < self@.len(),
        ensures
            b@ == scattered(self@, places@.map_values(|p: usize| p as int), bytes@, bytes@.len()),
    {
        let mut coefs: Vec<i16> = self.0.clone();
        assert(coefs@ =~= self@);
        let mut i: usize = 0;
        let ghost at = places@.map_values(|p: usize| p as int);
        while i < places.len()
            invariant
                i <= places@.len(),
                places@.len() == bytes@.len(),
                at == places@.map_values(|p: usize| p as int),
                forall|i: int| 0 <= i < places@.len() ==> places@[i] < self@.len(),
                coefs@.len() == self@.len(),
                coefs@ == scattered(self@, at, bytes@, i as nat),
            decreases places@.len() - i,
        {
            let p: usize = places[i];
            coefs[p] = with_low(self.0[p], bytes[i]);
            i = i + 1;
        }
        Blocks(coefs)
    }

    /// The places of the coefficients that take part in a walk, in their
    /// order.
    pub fn iter(&self, extra: &ExtraArgs) -> (places: Vec<usize>)
        requires
            extra@.valid(),
        ensures
            places@.map_values(|p: usize| p as int) == positions(self@, extra@),
    {
        let mut places: Vec<usize> = Vec::new();
        let mut p: usize = 0;
        let n: usize = self.0.len();
        assert(places@.map_values(|p: usize| p as int) =~= visible(self@, extra@, 0));
        while p < n
            invariant
                p <= n,
                n == self@.len(),
                extra@.valid(),
                places@.map_values(|p: usize| p as int) == visible(self@, extra@, p as nat),
            decreases n - p,
        {
            let ghost before = places@;
            if !selective_check(extra, p % 64, self.0[p]) {
                places.push(p);
                assert(places@.map_values(|p: usize| p as int) =~= before.map_values(|p: usize| p as int).push(
                    p as int,
                ));
            }
            p = p + 1;
        }
        places
    }
}

/// Picks the coefficients that a walk goes over, and counts them; see
/// [`selected`].
pub fn get_blocks(components: &Vec<Component>, comp: Option<u8>) -> (r: Result<(Blocks, usize), Error>)
    ensures
        match selected(components@, comp) {
            Ok(coefs) => r matches Ok((blocks, size)) && blocks@ == coefs && size == coefs.len(),
            Err(e) => r matches Err(x) && x == e,
        },
{
    let mut all: Vec<i16> = Vec::new();
    match comp {
        Some(c) => {
            if c as usize >= components.len() {
                return Err(Error::InvalidParameters);
            }
            let coefs = components[c as usize].coefs();
            let mut i: usize = 0;
            while i < coefs.len()
                invariant
                    i <= coefs@.len(),
                    all@ == coefs@.take(i as int),
                decreases coefs@.len() - i,
            {
                all.push(coefs[i]);
                i = i + 1;
                assert(all@ =~= coefs@.take(i as int));
            }
            assert(coefs@.take(coefs@.len() as int) =~= coefs@);
        },
        None => {
            let mut k: usize = 0;
            while k < components.len()
                invariant
                    k <= components@.len(),
                    all@ == joined(components@, k as nat),
                decreases components@.len() - k,
            {
                let coefs = components[k].coefs();
                let ghost before = all@;
                let mut i: usize = 0;
                while i < coefs.len()
                    invariant
                        i <= coefs@.len(),
                        all@ == before + coefs@.take(i as int),
                    decreases coefs@.len() - i,
                {
                    all.push(coefs[i]);
                    i = i + 1;
                    assert(all@ =~= before + coefs@.take(i as int));
                }
                assert(coefs@.take(coefs@.len() as int) =~= coefs@);
                k = k + 1;
            }
        },
    }
    let size = all.len();
    Ok((Blocks(all), size))
}

/// What [`put_blocks`] answers: there is no such component, or the
/// coefficients are not as many as the walk goes over.
pub open spec fn put_check(components: Seq<Component>, comp: Option<u8>, coefs: Seq<i16>) -> Result<(), Error> {
    match selected(components, comp) {
        Err(e) => Err(e),
        Ok(old) => if old.len() == coefs.len() {
            Ok(())
        } else {
            Err(Error::UnsupportedFormat)
        },
    }
}

/// Whether two lists of components have the same sizes, one by one.
pub open spec fn same_sizes(a: Seq<Component>, b: Seq<Component>) -> bool {
    &&& a.len() == b.len()
    &&& forall|k: int|
        0 <= k < a.len() ==> (#[trigger] a[k])@.width_in_blocks == b[k]@.width_in_blocks && a[k]@.height_in_blocks
            == b[k]@.height_in_blocks && a[k]@.coefs.len() == b[k]@.coefs.len()
}

/// Puts the coefficients that a walk went over back into the components
/// they were picked from: the inverse of [`get_blocks`]. A component that
/// the walk did not go over stays as it is.
pub fn put_blocks(components: &Vec<Component>, comp: Option<u8>, blocks: &Blocks) -> (r: Result<
    Vec<Component>,
    Error,
>)
    ensures
        match put_check(components@, comp, blocks@) {
            Ok(_) => {
                &&& r matches Ok(out)
                &&& same_sizes(out@, components@)
                &&& selected(out@, comp) == Ok::<Seq<i16>, Error>(blocks@)
                &&& forall|k: int|
                    0 <= k < components@.len() && comp is Some && comp->Some_0 != k ==> (#[trigger] out@[k])@
                        == components@[k]@
            },
            Err(e) => r matches Err(x) && x == e,
        },
{
    let (old, size) = match get_blocks(components, comp) {
        Err(e) => {
            return Err(e);
        },
        Ok(found) => found,
    };
    let total: usize = blocks.0.len();
    if size != total {
        return Err(Error::UnsupportedFormat);
    }
    let mut out: Vec<Component> = Vec::new();
    let mut from: usize = 0;
    let mut k: usize = 0;
    while k < components.len()
        invariant
            k <= components@.len(),
            out@.len() == k,
            selected(components@, comp) == Ok::<Seq<i16>, Error>(old@),
            old@.len() == blocks@.len(),
            total == blocks@.len(),
            comp is Some ==> from == 0,
            comp is None ==> from == joined(components@, k as nat).len() && joined(out@, k as nat) == blocks@.take(
                from as int,
            ),
            forall|j: int|
                0 <= j < k ==> (#[trigger] out@[j])@.width_in_blocks == components@[j]@.width_in_blocks
                    && out@[j]@.height_in_blocks == components@[j]@.height_in_blocks && out@[j]@.coefs.len()
                    == components@[j]@.coefs.len(),
            forall|j: int| 0 <= j < k && comp is Some && comp->Some_0 == j ==> (#[trigger] out@[j])@.coefs == blocks@,
            forall|j: int|
                0 <= j < k && comp is Some && comp->Some_0 != j ==> (#[trigger] out@[j])@ == components@[j]@,
        decreases components@.len() - k,
    {
        let was = &components[k];
        let len: usize = was.coefs().len();
        let takes: bool = match comp {
            Some(c) => c as usize == k,
            None => true,
        };
        let ghost start = from as int;
        proof {
            if comp is None {
                lemma_joined_len(components@, k as nat, components@.len());
            }
            assert(takes ==> start + len <= blocks@.len());
        }
        let mut coefs: Vec<i16> = Vec::new();
        let mut i: usize = 0;
        assert(coefs@ =~= blocks@.subrange(start, start) && coefs@ =~= was@.coefs.take(0));
        while i < len
            invariant
                i <= len,
                len == was@.coefs.len(),
                total == blocks@.len(),
                start == from,
                takes ==> start + len <= blocks@.len(),
                coefs@ == (if takes {
                    blocks@.subrange(start, start + i)
                } else {
                    was@.coefs.take(i as int)
                }),
            decreases len - i,
        {
            if takes {
                coefs.push(blocks.0[from + i]);
                assert(coefs@ =~= blocks@.subrange(start, start + i + 1));
            } else {
                coefs.push(was.coefs()[i]);
                assert(coefs@ =~= was@.coefs.take(i + 1));
            }
            i = i + 1;
        }
        proof {
            assert(was@.coefs.take(len as int) =~= was@.coefs);
            if comp is Some {
                assert(takes ==> blocks@.subrange(0, len as int) =~= blocks@);
            }
        }
        let made = match Component::new(was.width_in_blocks(), was.height_in_blocks(), coefs) {
            Ok(c) => c,
            Err(e) => {
                return Err(e);
            },
        };
        let ghost before = out@;
        out.push(made);
        proof {
            if comp is None {
                lemma_joined_prefix(before, out@, k as nat);
                assert(blocks@.take(start) + blocks@.subrange(start, start + len) =~= blocks@.take(start + len));
            }
        }
        if comp.is_none() {
            from = from + len;
        }
        k = k + 1;
    }
    proof {
        if comp is None {
            assert(blocks@.take(blocks@.len() as int) =~= blocks@);
        }
    }
    Ok(out)
}

/// The coefficients of some components are no more than those of more.
pub proof fn lemma_joined_len(components: Seq<Component>, k: nat, n: nat)
    requires
        k <= n,
    ensures
        joined(components, k).len() <= joined(components, n).len(),
        k < n ==> joined(components, k).len() + components[k as int]@.coefs.len() <= joined(components, n).len(),
    decreases n,
{
    if k < n {
        lemma_joined_len(components, k, (n - 1) as nat);
    }
}

/// Components that begin alike join alike.
pub proof fn lemma_joined_prefix(a: Seq<Component>, b: Seq<Component>, n: nat)
    requires
        n <= a.len(),
        n <= b.len(),
        forall|j: int| 0 <= j < n ==> a[j] == b[j],
    ensures
        joined(a, n) == joined(b, n),
    decreases n,
{
    if n > 0 {
        lemma_joined_prefix(a, b, (n - 1) as nat);
    }
}

} // verus!
