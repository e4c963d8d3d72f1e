//! Display modes grouped by resolution, with refresh rates rounded to whole hertz.
use vstd::prelude::*;
use vstd::multiset::Multiset;
use crate::display_config::Mode;

verus! {

/// A screen size in pixels. Resolutions are ordered by width, then height.
#[derive(PartialEq, Eq, Structural, Clone, Copy, Debug, Hash, PartialOrd, Ord)]
pub struct Resolution {
    pub width: u32,
    pub height: u32,
}

/// `a` comes after `b`: wider, or as wide and taller.
pub open spec fn res_gt(a: Resolution, b: Resolution) -> bool {
    a.width > b.width || (a.width == b.width && a.height > b.height)
}

/// A resolution with a refresh rate rounded to whole hertz. Ordered by
/// resolution, then rate.
#[derive(PartialEq, Eq, Structural, Clone, Copy, Debug, Hash, PartialOrd, Ord)]
pub struct RoundedMode {
    pub res: Resolution,
    pub frequency: u32,
}

pub open spec fn rm_gt(a: RoundedMode, b: RoundedMode) -> bool {
    res_gt(a.res, b.res) || (a.res == b.res && a.frequency > b.frequency)
}

pub open spec fn desc_modes(s: Seq<RoundedMode>) -> bool {
    forall|a: int, b: int| 0 <= a < b < s.len() ==> rm_gt(#[trigger] s[a], #[trigger] s[b])
}

pub open spec fn desc_res(s: Seq<Resolution>) -> bool {
    forall|a: int, b: int| 0 <= a < b < s.len() ==> res_gt(#[trigger] s[a], #[trigger] s[b])
}

pub open spec fn desc_u32(s: Seq<u32>) -> bool {
    forall|a: int, b: int| 0 <= a < b < s.len() ==> #[trigger] s[a] > #[trigger] s[b]
}

/// The resolution of a mode.
pub open spec fn res_of(m: Mode) -> Resolution {
    Resolution { width: m.width, height: m.height }
}

/// A mode's refresh rate rounded to the nearest hertz, halves rounded up.
pub open spec fn rounded_hz(m: Mode) -> nat {
    ((m.frequency_mhz as nat + 500) / 1000) as nat
}

pub open spec fn rounded_of(m: Mode) -> RoundedMode {
    RoundedMode { res: res_of(m), frequency: rounded_hz(m) as u32 }
}

/// How far, in millihertz, a mode's refresh rate is from `hz` hertz.
pub open spec fn diff_mhz(hz: nat, m: Mode) -> nat {
    if hz * 1000 >= m.frequency_mhz { (hz * 1000 - m.frequency_mhz) as nat } else { (m.frequency_mhz - hz * 1000) as nat }
}

/// Mode `k` of `ms` is closer to `hz` than one hertz and than every earlier
/// mode of its resolution: scanning the modes in order, it becomes the best match.
pub open spec fn improves(ms: Seq<Mode>, hz: nat, k: int) -> bool {
    &&& diff_mhz(hz, ms[k]) < 1000
    &&& forall|e: int| 0 <= e < k && res_of(#[trigger] ms[e]) == res_of(ms[k]) ==> diff_mhz(hz, ms[e]) > diff_mhz(hz, ms[k])
}

/// Some mode of `ms` rounds to `rm`.
pub open spec fn is_rounded_mode(ms: Seq<Mode>, rm: RoundedMode) -> bool {
    exists|k: int| 0 <= k < ms.len() && rounded_of(#[trigger] ms[k]) == rm
}

impl Resolution {
    /// Whether `self` comes after `other`: wider, or as wide and taller.
    pub fn is_after(&self, other: &Resolution) -> (r: bool)
        ensures
            r == res_gt(*self, *other),
    {
        self.width > other.width || (self.width == other.width && self.height > other.height)
    }
}

impl RoundedMode {
    /// Whether `self` comes after `other`: a later resolution, or the same one at
    /// a higher rate.
    pub fn is_after(&self, other: &RoundedMode) -> (r: bool)
        ensures
            r == rm_gt(*self, *other),
    {
        self.res.is_after(&other.res) || (self.res == other.res && self.frequency > other.frequency)
    }
}

/// Inserts `x` into a strictly descending vector unless it holds `x` already.
fn insert_mode(v: &mut Vec<RoundedMode>, x: RoundedMode)
    requires
        desc_modes(old(v)@),
    ensures
        desc_modes(final(v)@),
        forall|y: RoundedMode| final(v)@.contains(y) <==> (old(v)@.contains(y) || y == x),
{
    let mut p: usize = 0;
    while p < v.len() && v[p].is_after(&x)
        invariant
            v@ == old(v)@,
            desc_modes(v@),
            p <= v@.len(),
            forall|q: int| 0 <= q < p ==> rm_gt(#[trigger] v@[q], x),
        decreases v@.len() - p,
    {
        p = p + 1;
    }
    if p < v.len() && v[p] == x {
        assert(v@[p as int] == x);
        assert(v@.contains(x));
        return;
    }
    let ghost before = v@;
    v.insert(p, x);
    assert forall|a: int, b: int| 0 <= a < b < v@.len() implies rm_gt(#[trigger] v@[a], #[trigger] v@[b]) by {
        if b < p {
            assert(v@[a] == before[a] && v@[b] == before[b]);
        } else if b == p {
            assert(v@[a] == before[a]);
        } else if a < p {
            assert(v@[a] == before[a] && v@[b] == before[b - 1]);
            assert(rm_gt(before[a], x));
            assert(!rm_gt(before[p as int], x) && before[p as int] != x);
            if p < b - 1 {
                assert(rm_gt(before[p as int], before[b - 1]));
            }
        } else if a == p {
            assert(v@[b] == before[b - 1]);
            assert(!rm_gt(before[p as int], x) && before[p as int] != x);
            if p < b - 1 {
                assert(rm_gt(before[p as int], before[b - 1]));
            }
        } else {
            assert(v@[a] == before[a - 1] && v@[b] == before[b - 1]);
        }
    }
    assert forall|y: RoundedMode| v@.contains(y) <==> (before.contains(y) || y == x) by {
        if v@.contains(y) {
            let i = choose|i: int| 0 <= i < v@.len() && v@[i] == y;
            if i < p {
                assert(before[i] == y);
            } else if i > p {
                assert(before[i - 1] == y);
            }
        }
        if before.contains(y) {
            let i = choose|i: int| 0 <= i < before.len() && before[i] == y;
            if i < p {
                assert(v@[i] == y);
            } else {
                assert(v@[i + 1] == y);
            }
        }
        if y == x {
            assert(v@[p as int] == y);
        }
    }
    assert(before == old(v)@);
    assert forall|y: RoundedMode| #[trigger] v@.contains(y) <==> (old(v)@.contains(y) || y == x) by {
        assert(v@.contains(y) <==> (before.contains(y) || y == x));
    }
}

/// The rounded mode of the last link for `id` among `links`.
pub open spec fn last_link(links: Seq<(u32, RoundedMode)>, id: u32) -> Option<RoundedMode>
    decreases links.len(),
{
    if links.len() == 0 {
        None
    } else if links.last().0 == id {
        Some(links.last().1)
    } else {
        last_link(links.drop_last(), id)
    }
}

proof fn lemma_last_link(links: Seq<(u32, RoundedMode)>, id: u32)
    ensures
        last_link(links, id) is None <==> forall|q: int| 0 <= q < links.len() ==> (#[trigger] links[q]).0 != id,
        last_link(links, id) matches Some(rm) ==> links.contains((id, rm)),
    decreases links.len(),
{
    if links.len() > 0 {
        lemma_last_link(links.drop_last(), id);
        assert forall|q: int| 0 <= q < links.len() - 1 implies links[q] == #[trigger] links.drop_last()[q] by {}
        assert(links[links.len() - 1] == links.last());
        if links.last().0 != id {
            if last_link(links, id) is None {
                assert forall|q: int| 0 <= q < links.len() implies (#[trigger] links[q]).0 != id by {
                    if q < links.len() - 1 {
                        assert(links[q] == links.drop_last()[q]);
                    }
                }
            }
            if let Some(rm) = last_link(links, id) {
                let q = choose|q: int| 0 <= q < links.drop_last().len() && links.drop_last()[q] == (id, rm);
                assert(links[q] == (id, rm));
            }
        } else {
            assert(links[links.len() - 1] == (id, links.last().1));
        }
    }
}

/// Modes grouped by resolution, with their rates rounded to whole hertz, and the
/// links between rounded modes and the modes that best represent them.
pub struct ModeDb {
    source: Vec<Mode>,
    modes: Vec<RoundedMode>,
    resolutions: Vec<Resolution>,
    ids: Vec<u32>,
    links: Vec<(u32, RoundedMode)>,
}

/// Mode `k` of `ms` is the one that, scanning in order, last became the best
/// match of the rounded mode `rm`.
pub open spec fn is_representative(ms: Seq<Mode>, rm: RoundedMode, k: int) -> bool {
    &&& 0 <= k < ms.len()
    &&& res_of(ms[k]) == rm.res
    &&& improves(ms, rm.frequency as nat, k)
    &&& forall|e: int| k < e < ms.len() && res_of(#[trigger] ms[e]) == rm.res
        ==> !improves(ms, rm.frequency as nat, e)
}

/// `id` is the id of the mode that represents `rm`.
pub open spec fn represented_by(ms: Seq<Mode>, rm: RoundedMode, id: u32) -> bool {
    exists|k: int| is_representative(ms, rm, k) && ms[k].id == id
}

impl ModeDb {
    /// The modes the database was built from.
    pub closed spec fn source_spec(&self) -> Seq<Mode> {
        self.source@
    }

    /// The distinct rounded modes, latest first.
    pub closed spec fn modes_spec(&self) -> Seq<RoundedMode> {
        self.modes@
    }

    /// The distinct resolutions, latest first.
    pub closed spec fn resolutions_spec(&self) -> Seq<Resolution> {
        self.resolutions@
    }

    /// The rounded mode that the mode with id `id` links to.
    pub closed spec fn link_spec(&self, id: u32) -> Option<RoundedMode> {
        last_link(self.links@, id)
    }

    pub closed spec fn wf(&self) -> bool {
        let ms = self.source@;
        &&& desc_modes(self.modes@)
        &&& forall|rm: RoundedMode| self.modes@.contains(rm) <==> is_rounded_mode(ms, rm)
        &&& desc_res(self.resolutions@)
        &&& forall|r: Resolution| self.resolutions@.contains(r) <==>
            exists|k: int| 0 <= k < ms.len() && res_of(#[trigger] ms[k]) == r
        &&& self.ids@.len() == self.modes@.len()
        &&& forall|q: int| 0 <= q < self.modes@.len() ==> represented_by(ms, #[trigger] self.modes@[q], self.ids@[q])
        &&& forall|q: int| 0 <= q < self.links@.len() ==> is_link(ms, #[trigger] self.links@[q])
        &&& forall|k: int, rm: RoundedMode| 0 <= k < ms.len() && is_rounded_mode(ms, rm)
            && rm.res == res_of(#[trigger] ms[k]) && #[trigger] improves(ms, rm.frequency as nat, k)
            ==> self.links@.contains((ms[k].id, rm))
    }
}

/// A link from mode `k` of `ms` to the rounded mode `rm`, for which that mode
/// became the best match while scanning.
pub open spec fn is_link(ms: Seq<Mode>, link: (u32, RoundedMode)) -> bool {
    exists|k: int| #![trigger ms[k]]
        0 <= k < ms.len() && ms[k].id == link.0 && link.1.res == res_of(ms[k])
        && is_rounded_mode(ms, link.1) && improves(ms, link.1.frequency as nat, k)
}

fn rounded_mode_of(m: &Mode) -> (r: RoundedMode)
    ensures
        r == rounded_of(*m),
{
    let hz: u64 = (m.frequency_mhz as u64 + 500) / 1000;
    RoundedMode { res: Resolution { width: m.width, height: m.height }, frequency: hz as u32 }
}

fn diff_of(hz: u32, m: &Mode) -> (r: u64)
    ensures
        r as nat == diff_mhz(hz as nat, *m),
{
    let target: u64 = hz as u64 * 1000;
    if target >= m.frequency_mhz as u64 {
        target - m.frequency_mhz as u64
    } else {
        m.frequency_mhz as u64 - target
    }
}

/// The distinct rounded modes of `ms`, latest first.
fn collect_modes(ms: &Vec<Mode>) -> (r: Vec<RoundedMode>)
    ensures
        desc_modes(r@),
        forall|rm: RoundedMode| r@.contains(rm) <==> is_rounded_mode(ms@, rm),
{
    let mut out: Vec<RoundedMode> = Vec::new();
    let mut k: usize = 0;
    while k < ms.len()
        invariant
            k <= ms@.len(),
            desc_modes(out@),
            forall|rm: RoundedMode| out@.contains(rm) <==> exists|e: int| 0 <= e < k && rounded_of(#[trigger] ms@[e]) == rm,
        decreases ms@.len() - k,
    {
        let rm = rounded_mode_of(&ms[k]);
        insert_mode(&mut out, rm);
        proof {
            assert forall|x: RoundedMode| out@.contains(x) <==> exists|e: int| 0 <= e < k + 1
                && rounded_of(#[trigger] ms@[e]) == x by {
                if x == rm {
                    assert(rounded_of(ms@[k as int]) == x);
                }
                if exists|e: int| 0 <= e < k + 1 && rounded_of(#[trigger] ms@[e]) == x {
                    let e = choose|e: int| 0 <= e < k + 1 && rounded_of(#[trigger] ms@[e]) == x;
                    if e < k {
                        assert(exists|e2: int| 0 <= e2 < k && rounded_of(#[trigger] ms@[e2]) == x);
                    }
                }
            }
        }
        k = k + 1;
    }
    out
}

/// The distinct resolutions of strictly descending rounded modes, latest first.
fn collect_resolutions(modes: &Vec<RoundedMode>) -> (r: Vec<Resolution>)
    requires
        desc_modes(modes@),
    ensures
        desc_res(r@),
        forall|res: Resolution| r@.contains(res) <==> exists|q: int| 0 <= q < modes@.len() && (#[trigger] modes@[q]).res == res,
{
    let mut out: Vec<Resolution> = Vec::new();
    let mut q: usize = 0;
    while q < modes.len()
        invariant
            q <= modes@.len(),
            desc_modes(modes@),
            desc_res(out@),
            q > 0 ==> out@.len() > 0 && out@.last() == modes@[q - 1].res,
            q == 0 ==> out@.len() == 0,
            forall|res: Resolution| out@.contains(res) <==> exists|e: int| 0 <= e < q && (#[trigger] modes@[e]).res == res,
        decreases modes@.len() - q,
    {
        let res = modes[q].res;
        let ghost before = out@;
        if out.len() == 0 || out[out.len() - 1] != res {
            proof {
                if q > 0 {
                    assert(rm_gt(modes@[q - 1], modes@[q as int]));
                }
            }
            out.push(res);
            proof {
                assert forall|a: int, b: int| 0 <= a < b < out@.len() implies res_gt(#[trigger] out@[a], #[trigger] out@[b]) by {
                    if b == out@.len() - 1 && a < b {
                        assert(out@[b] == res);
                        assert(res_gt(before.last(), res));
                        if a < before.len() - 1 {
                            assert(res_gt(before[a], before[before.len() - 1]));
                        }
                    }
                }
            }
        }
        proof {
            assert forall|x: Resolution| out@.contains(x) <==> exists|e: int| 0 <= e < q + 1
                && (#[trigger] modes@[e]).res == x by {
                if out@.contains(x) && !before.contains(x) {
                    let i = choose|i: int| 0 <= i < out@.len() && out@[i] == x;
                    if i < before.len() {
                        assert(before[i] == x);
                    }
                    assert(modes@[q as int].res == x);
                }
                if before.contains(x) {
                    let i = choose|i: int| 0 <= i < before.len() && before[i] == x;
                    assert(out@[i] == x);
                }
                if exists|e: int| 0 <= e < q + 1 && (#[trigger] modes@[e]).res == x {
                    let e = choose|e: int| 0 <= e < q + 1 && (#[trigger] modes@[e]).res == x;
                    if e == q {
                        assert(out@[out@.len() - 1] == x);
                    } else {
                        assert(exists|e2: int| 0 <= e2 < q && (#[trigger] modes@[e2]).res == x);
                    }
                }
            }
        }
        q = q + 1;
    }
    out
}

/// Scans `ms` for the best match of `rm`, appending a link for every mode that
/// becomes the best match on the way. Returns the id of the last one.
fn link_mode(ms: &Vec<Mode>, rm: RoundedMode, links: &mut Vec<(u32, RoundedMode)>) -> (id: u32)
    requires
        is_rounded_mode(ms@, rm),
    ensures
        represented_by(ms@, rm, id),
        final(links)@.len() >= old(links)@.len(),
        forall|q: int| 0 <= q < old(links)@.len() ==> #[trigger] final(links)@[q] == old(links)@[q],
        forall|q: int| old(links)@.len() <= q < final(links)@.len() ==> is_link(ms@, #[trigger] final(links)@[q]),
        forall|k: int| 0 <= k < ms@.len() && res_of(#[trigger] ms@[k]) == rm.res && improves(ms@, rm.frequency as nat, k)
            ==> final(links)@.contains((ms@[k].id, rm)),
{
    let ghost hz = rm.frequency as nat;
    let mut best: u64 = 1000;
    let mut id: u32 = 0;
    let ghost mut last: int = -1;
    let mut k: usize = 0;
    while k < ms.len()
        invariant
            is_rounded_mode(ms@, rm),
            hz == rm.frequency as nat,
            k <= ms@.len(),
            best <= 1000,
            forall|e: int| 0 <= e < k && res_of(#[trigger] ms@[e]) == rm.res ==> diff_mhz(hz, ms@[e]) >= best,
            -1 <= last < k,
            last == -1 ==> best == 1000,
            last >= 0 ==> res_of(ms@[last]) == rm.res && diff_mhz(hz, ms@[last]) == best
                && improves(ms@, hz, last) && ms@[last].id == id,
            forall|e: int| last < e < k && res_of(#[trigger] ms@[e]) == rm.res ==> !improves(ms@, hz, e),
            links@.len() >= old(links)@.len(),
            forall|q: int| 0 <= q < old(links)@.len() ==> #[trigger] links@[q] == old(links)@[q],
            forall|q: int| old(links)@.len() <= q < links@.len() ==> is_link(ms@, #[trigger] links@[q]),
            forall|e: int| 0 <= e < k && res_of(#[trigger] ms@[e]) == rm.res && improves(ms@, hz, e)
                ==> links@.contains((ms@[e].id, rm)),
        decreases ms@.len() - k,
    {
        let m = ms[k];
        if m.width == rm.res.width && m.height == rm.res.height {
            let d = diff_of(rm.frequency, &m);
            if d < best {
                best = d;
                id = m.id;
                proof {
                    last = k as int;
                }
                let ghost before = links@;
                links.push((m.id, rm));
                proof {
                    assert(is_link(ms@, (m.id, rm)));
                    assert(links@[links@.len() - 1] == (m.id, rm));
                    assert forall|e: int| 0 <= e < k + 1 && res_of(#[trigger] ms@[e]) == rm.res && improves(ms@, hz, e)
                        implies links@.contains((ms@[e].id, rm)) by {
                        if e < k {
                            let q = choose|q: int| 0 <= q < before.len() && before[q] == (ms@[e].id, rm);
                            assert(links@[q] == (ms@[e].id, rm));
                        }
                    }
                }
            } else {
                proof {
                    assert(!improves(ms@, hz, k as int));
                }
            }
        }
        k = k + 1;
    }
    proof {
        let x = choose|x: int| 0 <= x < ms@.len() && rounded_of(#[trigger] ms@[x]) == rm;
        assert(diff_mhz(hz, ms@[x]) <= 500) by {
            assert(rounded_hz(ms@[x]) == hz);
        }
        assert(last >= 0);
        assert(is_representative(ms@, rm, last));
    }
    id
}

/// The refresh rates of one resolution, highest first.
#[derive(Debug)]
pub struct ResolutionFrequencies {
    pub res: Resolution,
    pub freqs: Vec<u32>,
}

impl ModeDb {
    /// Builds the database: rounds every mode's rate to whole hertz, keeps each
    /// rounded mode once, and links each rounded mode to the mode that best
    /// represents it (the last, scanning in order, to come closer than one hertz
    /// and than every earlier mode of its resolution).
    pub fn new(modes: &Vec<Mode>) -> (r: ModeDb)
        ensures
            r.wf(),
            r.source_spec() == modes@,
            desc_modes(r.modes_spec()),
            forall|rm: RoundedMode| r.modes_spec().contains(rm) <==> is_rounded_mode(modes@, rm),
            desc_res(r.resolutions_spec()),
            forall|res: Resolution| r.resolutions_spec().contains(res) <==>
                exists|k: int| 0 <= k < modes@.len() && res_of(#[trigger] modes@[k]) == res,
    {
        let rounded = collect_modes(modes);
        let resolutions = collect_resolutions(&rounded);
        let mut ids: Vec<u32> = Vec::new();
        let mut links: Vec<(u32, RoundedMode)> = Vec::new();
        let mut q: usize = 0;
        while q < rounded.len()
            invariant
                q <= rounded@.len(),
                forall|rm: RoundedMode| rounded@.contains(rm) <==> is_rounded_mode(modes@, rm),
                ids@.len() == q,
                forall|x: int| 0 <= x < q ==> represented_by(modes@, #[trigger] rounded@[x], ids@[x]),
                forall|x: int| 0 <= x < links@.len() ==> is_link(modes@, #[trigger] links@[x]),
                forall|x: int, k: int| 0 <= x < q && 0 <= k < modes@.len()
                    && res_of(#[trigger] modes@[k]) == rounded@[x].res
                    && #[trigger] improves(modes@, rounded@[x].frequency as nat, k)
                    ==> links@.contains((modes@[k].id, rounded@[x])),
            decreases rounded@.len() - q,
        {
            let rm = rounded[q];
            assert(rounded@.contains(rm));
            let ghost before = links@;
            let id = link_mode(modes, rm, &mut links);
            ids.push(id);
            proof {
                assert forall|x: int, k: int| 0 <= x < q + 1 && 0 <= k < modes@.len()
                    && res_of(#[trigger] modes@[k]) == rounded@[x].res
                    && #[trigger] improves(modes@, rounded@[x].frequency as nat, k)
                    implies links@.contains((modes@[k].id, rounded@[x])) by {
                    if x < q {
                        let i = choose|i: int| 0 <= i < before.len() && before[i] == (modes@[k].id, rounded@[x]);
                        assert(links@[i] == (modes@[k].id, rounded@[x]));
                    }
                }
                assert forall|x: int| 0 <= x < q + 1 implies represented_by(modes@, #[trigger] rounded@[x], ids@[x]) by {
                    if x < q {
                    } else {
                        assert(ids@[x] == id);
                        assert(rounded@[x] == rm);
                    }
                }
            }
            q = q + 1;
        }
        let db = ModeDb { source: modes.clone(), modes: rounded, resolutions, ids, links };
        proof {
            assert(db.source@ == modes@);
            assert forall|k: int, rm: RoundedMode| 0 <= k < modes@.len() && is_rounded_mode(modes@, rm)
                && rm.res == res_of(#[trigger] modes@[k]) && #[trigger] improves(modes@, rm.frequency as nat, k)
                implies db.links@.contains((modes@[k].id, rm)) by {
                assert(db.modes@.contains(rm));
                let x = choose|x: int| 0 <= x < db.modes@.len() && db.modes@[x] == rm;
            }
            assert forall|r: Resolution| db.resolutions@.contains(r) <==>
                exists|k: int| 0 <= k < modes@.len() && res_of(#[trigger] modes@[k]) == r by {
                if db.resolutions@.contains(r) {
                    let q = choose|q: int| 0 <= q < db.modes@.len() && (#[trigger] db.modes@[q]).res == r;
                    assert(db.modes@.contains(db.modes@[q]));
                    let k = choose|k: int| 0 <= k < modes@.len() && rounded_of(#[trigger] modes@[k]) == db.modes@[q];
                    assert(res_of(modes@[k]) == r);
                }
                if exists|k: int| 0 <= k < modes@.len() && res_of(#[trigger] modes@[k]) == r {
                    let k = choose|k: int| 0 <= k < modes@.len() && res_of(#[trigger] modes@[k]) == r;
                    assert(is_rounded_mode(modes@, rounded_of(modes@[k])));
                    let q = choose|q: int| 0 <= q < db.modes@.len() && db.modes@[q] == rounded_of(modes@[k]);
                    assert((db.modes@[q]).res == r);
                }
            }
        }
        proof {
            let ms = db.source@;
            assert(desc_modes(db.modes@));
            assert(forall|rm: RoundedMode| db.modes@.contains(rm) <==> is_rounded_mode(ms, rm));
            assert(desc_res(db.resolutions@));
            assert(db.ids@.len() == db.modes@.len());
            assert(forall|q: int| 0 <= q < db.links@.len() ==> is_link(ms, #[trigger] db.links@[q]));
        }
        db
    }
}

impl ModeDb {
    /// The distinct rounded modes, latest first.
    pub fn get_modes(&self) -> (r: Vec<RoundedMode>)
        ensures
            r@ == self.modes_spec(),
    {
        let mut out: Vec<RoundedMode> = Vec::new();
        let mut q: usize = 0;
        while q < self.modes.len()
            invariant
                q <= self.modes@.len(),
                out@ == self.modes@.subrange(0, q as int),
            decreases self.modes@.len() - q,
        {
            out.push(self.modes[q]);
            q = q + 1;
            assert(out@ =~= self.modes@.subrange(0, q as int));
        }
        assert(out@ =~= self.modes@);
        out
    }

    /// The distinct resolutions, latest first.
    pub fn get_resolutions(&self) -> (r: Vec<Resolution>)
        ensures
            r@ == self.resolutions_spec(),
    {
        let mut out: Vec<Resolution> = Vec::new();
        let mut q: usize = 0;
        while q < self.resolutions.len()
            invariant
                q <= self.resolutions@.len(),
                out@ == self.resolutions@.subrange(0, q as int),
            decreases self.resolutions@.len() - q,
        {
            out.push(self.resolutions[q]);
            q = q + 1;
            assert(out@ =~= self.resolutions@.subrange(0, q as int));
        }
        assert(out@ =~= self.resolutions@);
        out
    }

    /// The rounded rates of resolution `res`, highest first, or `None` when no
    /// mode has that resolution.
    pub fn get_res_frequencies(&self, res: &Resolution) -> (r: Option<Vec<u32>>)
        requires
            self.wf(),
        ensures
            r is Some <==> self.resolutions_spec().contains(*res),
            r matches Some(fs) ==> desc_u32(fs@) && fs@.len() > 0 && forall|f: u32|
                fs@.contains(f) <==> self.modes_spec().contains(RoundedMode { res: *res, frequency: f }),
    {
        let mut out: Vec<u32> = Vec::new();
        let mut q: usize = 0;
        while q < self.modes.len()
            invariant
                desc_modes(self.modes@),
                q <= self.modes@.len(),
                desc_u32(out@),
                forall|i: int, j: int| 0 <= i < out@.len() && q <= j < self.modes@.len()
                    && (#[trigger] self.modes@[j]).res == *res ==> #[trigger] out@[i] > self.modes@[j].frequency,
                forall|f: u32| out@.contains(f) <==> exists|e: int| 0 <= e < q
                    && #[trigger] self.modes@[e] == (RoundedMode { res: *res, frequency: f }),
            decreases self.modes@.len() - q,
        {
            let m = self.modes[q];
            let ghost before = out@;
            if m.res == *res {
                out.push(m.frequency);
                proof {
                    assert forall|i: int, j: int| 0 <= i < out@.len() && q + 1 <= j < self.modes@.len()
                        && (#[trigger] self.modes@[j]).res == *res implies #[trigger] out@[i] > self.modes@[j].frequency by {
                        if i == out@.len() - 1 {
                            assert(rm_gt(self.modes@[q as int], self.modes@[j]));
                        }
                    }
                }
            }
            proof {
                assert forall|f: u32| out@.contains(f) <==> exists|e: int| 0 <= e < q + 1
                    && #[trigger] self.modes@[e] == (RoundedMode { res: *res, frequency: f }) by {
                    let x = RoundedMode { res: *res, frequency: f };
                    if out@.contains(f) {
                        let i = choose|i: int| 0 <= i < out@.len() && out@[i] == f;
                        if i < before.len() {
                            assert(before[i] == f);
                            assert(before.contains(f));
                        } else {
                            assert(self.modes@[q as int] == x);
                        }
                    }
                    if exists|e: int| 0 <= e < q + 1 && #[trigger] self.modes@[e] == x {
                        let e = choose|e: int| 0 <= e < q + 1 && #[trigger] self.modes@[e] == x;
                        if e < q {
                            assert(before.contains(f));
                            let i = choose|i: int| 0 <= i < before.len() && before[i] == f;
                            assert(out@[i] == f);
                        } else {
                            assert(out@[out@.len() - 1] == f);
                        }
                    }
                }
            }
            q = q + 1;
        }
        proof {
            assert forall|f: u32| out@.contains(f) <==> self.modes@.contains(RoundedMode { res: *res, frequency: f }) by {
                let x = RoundedMode { res: *res, frequency: f };
                if self.modes@.contains(x) {
                    let e = choose|e: int| 0 <= e < self.modes@.len() && self.modes@[e] == x;
                }
            }
            if self.resolutions@.contains(*res) {
                let k = choose|k: int| 0 <= k < self.source@.len() && res_of(#[trigger] self.source@[k]) == *res;
                let x = rounded_of(self.source@[k]);
                assert(is_rounded_mode(self.source@, x));
                assert(self.modes@.contains(x));
                assert(out@.contains(x.frequency));
            }
            if out@.len() > 0 {
                assert(out@.contains(out@[0]));
                let x = RoundedMode { res: *res, frequency: out@[0] };
                assert(self.modes@.contains(x));
                let k = choose|k: int| 0 <= k < self.source@.len() && rounded_of(#[trigger] self.source@[k]) == x;
                assert(res_of(self.source@[k]) == *res);
            }
        }
        if out.len() == 0 {
            None
        } else {
            Some(out)
        }
    }
}

impl ModeDb {
    /// Each resolution, latest first, with its rounded rates, highest first.
    pub fn get_resolutions_with_frequencies(&self) -> (r: Vec<ResolutionFrequencies>)
        requires
            self.wf(),
        ensures
            r@.len() == self.resolutions_spec().len(),
            forall|q: int| 0 <= q < r@.len() ==> (#[trigger] r@[q]).res == self.resolutions_spec()[q]
                && desc_u32(r@[q].freqs@) && forall|f: u32| r@[q].freqs@.contains(f)
                    <==> self.modes_spec().contains(RoundedMode { res: r@[q].res, frequency: f }),
    {
        let mut out: Vec<ResolutionFrequencies> = Vec::new();
        let mut q: usize = 0;
        while q < self.resolutions.len()
            invariant
                self.wf(),
                q <= self.resolutions@.len(),
                out@.len() == q,
                forall|x: int| 0 <= x < q ==> (#[trigger] out@[x]).res == self.resolutions@[x]
                    && desc_u32(out@[x].freqs@) && forall|f: u32| out@[x].freqs@.contains(f)
                        <==> self.modes@.contains(RoundedMode { res: out@[x].res, frequency: f }),
            decreases self.resolutions@.len() - q,
        {
            let res = self.resolutions[q];
            assert(self.resolutions@.contains(res));
            match self.get_res_frequencies(&res) {
                Some(freqs) => {
                    out.push(ResolutionFrequencies { res, freqs });
                },
                None => {},
            }
            q = q + 1;
        }
        out
    }

    /// The id of the mode that represents `mode`.
    pub fn get_id(&self, mode: &RoundedMode) -> (r: u32)
        requires
            self.wf(),
            self.modes_spec().contains(*mode),
        ensures
            represented_by(self.source_spec(), *mode, r),
    {
        match self.position(mode) {
            Some(q) => {
                assert(represented_by(self.source@, self.modes@[q as int], self.ids@[q as int]));
                self.ids[q]
            },
            None => 0,
        }
    }

    fn position(&self, mode: &RoundedMode) -> (r: Option<usize>)
        ensures
            r matches Some(q) ==> q < self.modes@.len() && self.modes@[q as int] == *mode,
            r is None ==> !self.modes@.contains(*mode),
    {
        let mut q: usize = 0;
        while q < self.modes.len()
            invariant
                q <= self.modes@.len(),
                forall|x: int| 0 <= x < q ==> self.modes@[x] != *mode,
            decreases self.modes@.len() - q,
        {
            if self.modes[q] == *mode {
                return Some(q);
            }
            q = q + 1;
        }
        None
    }

    /// The rounded mode that the mode with id `id` links to: of the rounded modes
    /// for which that mode became the best match, the last one linked.
    pub fn get_mode_by_id(&self, mode_id: u32) -> (r: Option<RoundedMode>)
        requires
            self.wf(),
        ensures
            r == self.link_spec(mode_id),
            r matches Some(rm) ==> is_link(self.source_spec(), (mode_id, rm)),
            r is None ==> forall|k: int, rm: RoundedMode| 0 <= k < self.source_spec().len()
                && (#[trigger] self.source_spec()[k]).id == mode_id && is_rounded_mode(self.source_spec(), rm)
                && rm.res == res_of(self.source_spec()[k])
                ==> !#[trigger] improves(self.source_spec(), rm.frequency as nat, k),
    {
        let mut n: usize = self.links.len();
        assert(self.links@.subrange(0, n as int) =~= self.links@);
        while n > 0
            invariant
                self.wf(),
                n <= self.links@.len(),
                last_link(self.links@, mode_id) == last_link(self.links@.subrange(0, n as int), mode_id),
            decreases n,
        {
            let ghost pre = self.links@.subrange(0, n as int);
            assert(pre.drop_last() =~= self.links@.subrange(0, n - 1));
            if self.links[n - 1].0 == mode_id {
                proof {
                    lemma_last_link(self.links@, mode_id);
                    let rm = self.links@[n - 1].1;
                    assert(pre.last() == self.links@[n - 1]);
                    assert(last_link(self.links@, mode_id) == Some(rm));
                    let j = choose|j: int| 0 <= j < self.links@.len() && self.links@[j] == (mode_id, rm);
                    assert(is_link(self.source@, self.links@[j]));
                }
                return Some(self.links[n - 1].1);
            }
            n = n - 1;
        }
        proof {
            assert(self.links@.subrange(0, 0) =~= Seq::<(u32, RoundedMode)>::empty());
            lemma_last_link(self.links@, mode_id);
        }
        None
    }

    /// The mode that represents the rounded mode of resolution `res` at
    /// `frequency` hertz, followed to the rounded mode it links to; `None` when
    /// there is no such rounded mode.
    pub fn get_mode(&self, res: Resolution, frequency: u32) -> (r: Option<RoundedMode>)
        requires
            self.wf(),
        ensures
            r is Some <==> self.modes_spec().contains(RoundedMode { res, frequency }),
            r matches Some(x) ==> exists|id: u32| represented_by(self.source_spec(), RoundedMode { res, frequency }, id)
                && self.link_spec(id) == Some(x),
    {
        let rm = RoundedMode { res, frequency };
        if self.position(&rm).is_none() {
            return None;
        }
        assert(self.modes@.contains(rm));
        let id = self.get_id(&rm);
        let r = self.get_mode_by_id(id);
        proof {
            let k = choose|k: int| is_representative(self.source@, rm, k) && self.source@[k].id == id;
            assert(is_rounded_mode(self.source@, rm));
            assert(self.links@.contains((self.source@[k].id, rm)));
            lemma_last_link(self.links@, id);
            let i = choose|i: int| 0 <= i < self.links@.len() && self.links@[i] == (id, rm);
            assert(self.links@[i].0 == id);
            assert(r is Some);
            assert(represented_by(self.source_spec(), rm, id) && self.link_spec(id) == r);
        }
        r
    }

    /// The distinct rounded modes that the modes with the given ids link to.
    pub fn get_modes_by_ids(&self, mode_ids: &Vec<u32>) -> (r: Vec<RoundedMode>)
        requires
            self.wf(),
        ensures
            forall|a: int, b: int| 0 <= a < b < r@.len() ==> r@[a] != r@[b],
            forall|rm: RoundedMode| r@.contains(rm) <==> exists|i: int| 0 <= i < mode_ids@.len()
                && self.link_spec(#[trigger] mode_ids@[i]) == Some(rm),
    {
        let mut out: Vec<RoundedMode> = Vec::new();
        let mut i: usize = 0;
        while i < mode_ids.len()
            invariant
                self.wf(),
                i <= mode_ids@.len(),
                forall|a: int, b: int| 0 <= a < b < out@.len() ==> out@[a] != out@[b],
                forall|rm: RoundedMode| out@.contains(rm) <==> exists|x: int| 0 <= x < i
                    && self.link_spec(#[trigger] mode_ids@[x]) == Some(rm),
            decreases mode_ids@.len() - i,
        {
            let ghost before = out@;
            match self.get_mode_by_id(mode_ids[i]) {
                Some(rm) => {
                    let mut seen = false;
                    let mut p: usize = 0;
                    while p < out.len()
                        invariant
                            p <= out@.len(),
                            seen == exists|x: int| 0 <= x < p && out@[x] == rm,
                        decreases out@.len() - p,
                    {
                        if out[p] == rm {
                            seen = true;
                        }
                        p = p + 1;
                    }
                    if !seen {
                        out.push(rm);
                    }
                },
                None => {},
            }
            proof {
                assert forall|x: RoundedMode| out@.contains(x) <==> exists|y: int| 0 <= y < i + 1
                    && self.link_spec(#[trigger] mode_ids@[y]) == Some(x) by {
                    if out@.contains(x) && !before.contains(x) {
                        assert(self.link_spec(mode_ids@[i as int]) == Some(x));
                    }
                    if before.contains(x) {
                        let j = choose|j: int| 0 <= j < before.len() && before[j] == x;
                        assert(out@[j] == x);
                    }
                    if exists|y: int| 0 <= y < i + 1 && self.link_spec(#[trigger] mode_ids@[y]) == Some(x) {
                        let y = choose|y: int| 0 <= y < i + 1 && self.link_spec(#[trigger] mode_ids@[y]) == Some(x);
                        if y == i && !before.contains(x) {
                            assert(out@[out@.len() - 1] == x);
                        }
                    }
                }
            }
            i = i + 1;
        }
        out
    }
}

/// Some group of `gs` has resolution `res`.
pub open spec fn has_group(gs: Seq<ResolutionFrequencies>, res: Resolution) -> bool {
    exists|g: int| 0 <= g < gs.len() && (#[trigger] gs[g]).res == res
}

/// Some of the first `n` modes of `ms` has resolution `res`.
pub open spec fn has_res(ms: Seq<RoundedMode>, n: int, res: Resolution) -> bool {
    exists|e: int| 0 <= e < n && (#[trigger] ms[e]).res == res
}

pub open spec fn nonincr_u32(s: Seq<u32>) -> bool {
    forall|a: int, b: int| 0 <= a < b < s.len() ==> #[trigger] s[a] >= #[trigger] s[b]
}

/// Inserts `f` into a non-increasing vector, after the elements not below it.
fn insert_freq(v: &mut Vec<u32>, f: u32)
    requires
        nonincr_u32(old(v)@),
    ensures
        nonincr_u32(final(v)@),
        forall|x: u32| final(v)@.contains(x) <==> (old(v)@.contains(x) || x == f),
        final(v)@.to_multiset() == old(v)@.to_multiset().insert(f),
{
    let mut p: usize = 0;
    while p < v.len() && v[p] >= f
        invariant
            v@ == old(v)@,
            p <= v@.len(),
            forall|q: int| 0 <= q < p ==> #[trigger] v@[q] >= f,
        decreases v@.len() - p,
    {
        p = p + 1;
    }
    let ghost before = v@;
    v.insert(p, f);
    assert forall|a: int, b: int| 0 <= a < b < v@.len() implies #[trigger] v@[a] >= #[trigger] v@[b] by {
        if b < p {
            assert(v@[a] == before[a] && v@[b] == before[b]);
        } else if b == p {
            assert(v@[a] == before[a]);
        } else if a < p {
            assert(v@[a] == before[a] && v@[b] == before[b - 1]);
            if p < b - 1 {
                assert(before[p as int] >= before[b - 1]);
            }
        } else if a == p {
            assert(v@[b] == before[b - 1]);
            assert(before[p as int] < f);
            if p < b - 1 {
                assert(before[p as int] >= before[b - 1]);
            }
        } else {
            assert(v@[a] == before[a - 1] && v@[b] == before[b - 1]);
        }
    }
    assert forall|y: u32| #[trigger] v@.contains(y) <==> (old(v)@.contains(y) || y == f) by {
        if v@.contains(y) {
            let i = choose|i: int| 0 <= i < v@.len() && v@[i] == y;
            if i < p {
                assert(before[i] == y);
            } else if i > p {
                assert(before[i - 1] == y);
            }
        }
        if before.contains(y) {
            let i = choose|i: int| 0 <= i < before.len() && before[i] == y;
            if i < p {
                assert(v@[i] == y);
            } else {
                assert(v@[i + 1] == y);
            }
        }
        if y == f {
            assert(v@[p as int] == y);
        }
    }
    proof {
        broadcast use vstd::seq_lib::group_to_multiset_ensures;
        assert(v@.remove(p as int) =~= before);
        assert(v@.to_multiset().count(f) > 0) by {
            assert(v@.contains(f));
        }
        assert(v@.to_multiset() =~= before.to_multiset().insert(f));
    }
}

/// The multiset of the rates of the first `n` modes of `ms` that have resolution `res`.
pub open spec fn freqs_of(ms: Seq<RoundedMode>, res: Resolution, n: nat) -> Multiset<u32>
    decreases n,
{
    if n == 0 || n > ms.len() {
        Multiset::empty()
    } else if ms[n - 1].res == res {
        freqs_of(ms, res, (n - 1) as nat).insert(ms[n - 1].frequency)
    } else {
        freqs_of(ms, res, (n - 1) as nat)
    }
}

proof fn lemma_freqs_of_none(ms: Seq<RoundedMode>, res: Resolution, n: nat)
    requires
        n <= ms.len(),
        !has_res(ms, n as int, res),
    ensures
        freqs_of(ms, res, n) =~= Multiset::empty(),
    decreases n,
{
    if n > 0 {
        assert(ms[n - 1].res != res);
        assert(!has_res(ms, n - 1, res)) by {
            if has_res(ms, n - 1, res) {
                let e = choose|e: int| 0 <= e < n - 1 && (#[trigger] ms[e]).res == res;
                assert(0 <= e < n && ms[e].res == res);
            }
        }
        lemma_freqs_of_none(ms, res, (n - 1) as nat);
    }
}

/// Groups rounded modes by resolution: one group per resolution, latest first,
/// each holding the rates of its modes, highest first, repeats kept.
pub fn group_modes_by_res(modes: &Vec<RoundedMode>) -> (r: Vec<ResolutionFrequencies>)
    ensures
        forall|a: int, b: int| 0 <= a < b < r@.len() ==> res_gt(#[trigger] r@[a].res, #[trigger] r@[b].res),
        forall|res: Resolution| #[trigger] has_group(r@, res)
            <==> has_res(modes@, modes@.len() as int, res),
        forall|g: int| 0 <= g < r@.len() ==> nonincr_u32((#[trigger] r@[g]).freqs@) && forall|f: u32|
            r@[g].freqs@.contains(f) <==> modes@.contains(RoundedMode { res: r@[g].res, frequency: f }),
        forall|g: int| 0 <= g < r@.len() ==> (#[trigger] r@[g]).freqs@.to_multiset()
            == freqs_of(modes@, r@[g].res, modes@.len()),
{
    let mut groups: Vec<ResolutionFrequencies> = Vec::new();
    let mut k: usize = 0;
    while k < modes.len()
        invariant
            k <= modes@.len(),
            forall|a: int, b: int| 0 <= a < b < groups@.len() ==> res_gt(#[trigger] groups@[a].res, #[trigger] groups@[b].res),
            forall|res: Resolution| #[trigger] has_group(groups@, res)
                <==> has_res(modes@, k as int, res),
            forall|g: int| 0 <= g < groups@.len() ==> nonincr_u32((#[trigger] groups@[g]).freqs@) && forall|f: u32|
                groups@[g].freqs@.contains(f) <==> exists|e: int| 0 <= e < k
                    && #[trigger] modes@[e] == (RoundedMode { res: groups@[g].res, frequency: f }),
            forall|g: int| 0 <= g < groups@.len() ==> (#[trigger] groups@[g]).freqs@.to_multiset()
                == freqs_of(modes@, groups@[g].res, k as nat),
        decreases modes@.len() - k,
    {
        let m = modes[k];
        let mut p: usize = 0;
        while p < groups.len() && groups[p].res.is_after(&m.res)
            invariant
                p <= groups@.len(),
                forall|q: int| 0 <= q < p ==> res_gt((#[trigger] groups@[q]).res, m.res),
            decreases groups@.len() - p,
        {
            p = p + 1;
        }
        let ghost before = groups@;
        if p < groups.len() && groups[p].res == m.res {
            let mut g = groups.remove(p);
            insert_freq(&mut g.freqs, m.frequency);
            groups.insert(p, g);
            proof {
                assert forall|x: int| 0 <= x < groups@.len() implies (#[trigger] groups@[x]).freqs@.to_multiset()
                    == freqs_of(modes@, groups@[x].res, (k + 1) as nat) by {
                    if x != p {
                        assert(groups@[x] == before[x]);
                        if x < p {
                            assert(res_gt(before[x].res, before[p as int].res));
                        } else {
                            assert(res_gt(before[p as int].res, before[x].res));
                        }
                    }
                }
                assert forall|x: int| 0 <= x < groups@.len() && x != p implies #[trigger] groups@[x] == before[x] by {}
                assert forall|res: Resolution| #[trigger] has_group(groups@, res)
                    <==> has_res(modes@, k + 1, res) by {
                    if has_group(groups@, res) {
                        let g = choose|g: int| 0 <= g < groups@.len() && (#[trigger] groups@[g]).res == res;
                        assert(before[g].res == res);
                        assert(has_group(before, res));
                    }
                    if has_res(modes@, k + 1, res) {
                        let e = choose|e: int| 0 <= e < k + 1 && (#[trigger] modes@[e]).res == res;
                        if e < k {
                            assert(has_res(modes@, k as int, res));
                            assert(has_group(before, res));
                            let g = choose|g: int| 0 <= g < before.len() && (#[trigger] before[g]).res == res;
                            assert(groups@[g].res == res);
                        } else {
                            assert(groups@[p as int].res == res);
                        }
                    }
                }
                assert forall|x: int| 0 <= x < groups@.len() implies nonincr_u32((#[trigger] groups@[x]).freqs@) && forall|f: u32|
                    groups@[x].freqs@.contains(f) <==> exists|e: int| 0 <= e < k + 1
                        && #[trigger] modes@[e] == (RoundedMode { res: groups@[x].res, frequency: f }) by {
                    assert forall|f: u32| groups@[x].freqs@.contains(f) <==> exists|e: int| 0 <= e < k + 1
                        && #[trigger] modes@[e] == (RoundedMode { res: groups@[x].res, frequency: f }) by {
                        let y = RoundedMode { res: groups@[x].res, frequency: f };
                        if exists|e: int| 0 <= e < k + 1 && #[trigger] modes@[e] == y {
                            let e = choose|e: int| 0 <= e < k + 1 && #[trigger] modes@[e] == y;
                            if e < k {
                                assert(exists|e2: int| 0 <= e2 < k && #[trigger] modes@[e2] == y);
                            }
                        }
                        if x == p && f == m.frequency {
                            assert(modes@[k as int] == y);
                        }
                    }
                }
            }
        } else {
            let mut fs: Vec<u32> = Vec::new();
            fs.push(m.frequency);
            groups.insert(p, ResolutionFrequencies { res: m.res, freqs: fs });
            proof {
                assert(!has_res(modes@, k as int, m.res)) by {
                    if has_res(modes@, k as int, m.res) {
                        assert(has_group(before, m.res));
                        let g = choose|g: int| 0 <= g < before.len() && (#[trigger] before[g]).res == m.res;
                        if g < p {
                            assert(res_gt(before[g].res, m.res));
                        } else {
                            assert(!res_gt(before[p as int].res, m.res));
                            if g > p {
                                assert(res_gt(before[p as int].res, before[g].res));
                            }
                        }
                    }
                }
                lemma_freqs_of_none(modes@, m.res, k as nat);
                assert forall|x: int| 0 <= x < groups@.len() implies (#[trigger] groups@[x]).freqs@.to_multiset()
                    == freqs_of(modes@, groups@[x].res, (k + 1) as nat) by {
                    broadcast use vstd::seq_lib::group_to_multiset_ensures;
                    if x == p {
                        assert(groups@[x].freqs@ =~= Seq::<u32>::empty().push(m.frequency));
                        assert(groups@[x].freqs@.to_multiset() =~= Multiset::<u32>::empty().insert(m.frequency));
                    } else {
                        let y = if x < p { before[x] } else { before[x - 1] };
                        assert(groups@[x] == y);
                        if y.res == m.res {
                            assert(has_group(before, m.res));
                            let g = if x < p { x } else { x - 1 };
                            assert(before[g] == y);
                            if g < p {
                                assert(res_gt(before[g].res, m.res));
                            } else {
                                assert(!res_gt(before[p as int].res, m.res));
                                if g > p {
                                    assert(res_gt(before[p as int].res, before[g].res));
                                }
                            }
                        }
                    }
                }
                assert forall|a: int, b: int| 0 <= a < b < groups@.len() implies res_gt(#[trigger] groups@[a].res, #[trigger] groups@[b].res) by {
                    if b < p {
                        assert(groups@[a] == before[a] && groups@[b] == before[b]);
                    } else if b == p {
                        assert(groups@[a] == before[a]);
                    } else if a < p {
                        assert(groups@[a] == before[a] && groups@[b] == before[b - 1]);
                        assert(!res_gt(before[p as int].res, m.res) && before[p as int].res != m.res);
                        if p < b - 1 {
                            assert(res_gt(before[p as int].res, before[b - 1].res));
                        }
                    } else if a == p {
                        assert(groups@[b] == before[b - 1]);
                        assert(!res_gt(before[p as int].res, m.res) && before[p as int].res != m.res);
                        if p < b - 1 {
                            assert(res_gt(before[p as int].res, before[b - 1].res));
                        }
                    } else {
                        assert(groups@[a] == before[a - 1] && groups@[b] == before[b - 1]);
                    }
                }
                assert forall|res: Resolution| #[trigger] has_group(groups@, res)
                    <==> has_res(modes@, k + 1, res) by {
                    if has_group(groups@, res) {
                        let g = choose|g: int| 0 <= g < groups@.len() && (#[trigger] groups@[g]).res == res;
                        if g < p {
                            assert(before[g].res == res);
                            assert(has_group(before, res));
                        } else if g > p {
                            assert(before[g - 1].res == res);
                            assert(has_group(before, res));
                        } else {
                            assert(modes@[k as int].res == res);
                        }
                    }
                    if has_res(modes@, k + 1, res) {
                        let e = choose|e: int| 0 <= e < k + 1 && (#[trigger] modes@[e]).res == res;
                        if e < k {
                            assert(has_res(modes@, k as int, res));
                            assert(has_group(before, res));
                            let g = choose|g: int| 0 <= g < before.len() && (#[trigger] before[g]).res == res;
                            if g < p {
                                assert(groups@[g].res == res);
                            } else {
                                assert(groups@[g + 1].res == res);
                            }
                        } else {
                            assert(groups@[p as int].res == res);
                        }
                    }
                }
                assert forall|x: int| 0 <= x < groups@.len() implies nonincr_u32((#[trigger] groups@[x]).freqs@) && forall|f: u32|
                    groups@[x].freqs@.contains(f) <==> exists|e: int| 0 <= e < k + 1
                        && #[trigger] modes@[e] == (RoundedMode { res: groups@[x].res, frequency: f }) by {
                    if x == p {
                        assert forall|f: u32| groups@[x].freqs@.contains(f) <==> exists|e: int| 0 <= e < k + 1
                            && #[trigger] modes@[e] == (RoundedMode { res: groups@[x].res, frequency: f }) by {
                            let y = RoundedMode { res: m.res, frequency: f };
                            if groups@[x].freqs@.contains(f) {
                                assert(groups@[x].freqs@[0] == f);
                                assert(modes@[k as int] == y);
                            }
                            if exists|e: int| 0 <= e < k + 1 && #[trigger] modes@[e] == y {
                                let e = choose|e: int| 0 <= e < k + 1 && #[trigger] modes@[e] == y;
                                if e < k {
                                    assert(modes@[e].res == m.res);
                                    assert(has_res(modes@, k as int, m.res));
                                    assert(has_group(before, m.res));
                                    let g = choose|g: int| 0 <= g < before.len() && (#[trigger] before[g]).res == m.res;
                                    if g < p {
                                        assert(res_gt(before[g].res, m.res));
                                    } else {
                                        assert(!res_gt(before[p as int].res, m.res));
                                        if g > p {
                                            assert(res_gt(before[p as int].res, before[g].res));
                                        }
                                    }
                                } else {
                                    assert(groups@[x].freqs@[0] == f);
                                }
                            }
                        }
                    } else {
                        let y = if x < p { before[x] } else { before[x - 1] };
                        assert(groups@[x] == y);
                        assert forall|f: u32| groups@[x].freqs@.contains(f) <==> exists|e: int| 0 <= e < k + 1
                            && #[trigger] modes@[e] == (RoundedMode { res: groups@[x].res, frequency: f }) by {
                            let z = RoundedMode { res: y.res, frequency: f };
                            if exists|e: int| 0 <= e < k + 1 && #[trigger] modes@[e] == z {
                                let e = choose|e: int| 0 <= e < k + 1 && #[trigger] modes@[e] == z;
                                if e == k {
                                    assert(y.res == m.res);
                                    let g = if x < p { x } else { x - 1 };
                                    assert(0 <= g < before.len());
                                    assert(before[g] == y);
                                    if g < p {
                                        assert(res_gt(before[g].res, m.res));
                                    } else {
                                        assert(!res_gt(before[p as int].res, m.res));
                                        if g > p {
                                            assert(res_gt(before[p as int].res, before[g].res));
                                        }
                                    }
                                } else {
                                    assert(exists|e2: int| 0 <= e2 < k && #[trigger] modes@[e2] == z);
                                }
                            }
                        }
                    }
                }
            }
        }
        k = k + 1;
    }
    proof {
        assert forall|g: int| 0 <= g < groups@.len() implies nonincr_u32((#[trigger] groups@[g]).freqs@) && forall|f: u32|
            groups@[g].freqs@.contains(f) <==> modes@.contains(RoundedMode { res: groups@[g].res, frequency: f }) by {
            assert forall|f: u32| groups@[g].freqs@.contains(f) <==> modes@.contains(RoundedMode { res: groups@[g].res, frequency: f }) by {
                let y = RoundedMode { res: groups@[g].res, frequency: f };
                if modes@.contains(y) {
                    let e = choose|e: int| 0 <= e < modes@.len() && modes@[e] == y;
                    assert(modes@[e] == y);
                }
            }
        }
        assert forall|res: Resolution| #[trigger] has_group(groups@, res)
            <==> has_res(modes@, modes@.len() as int, res) by {}
    }
    groups
}

} // verus!
