use crate::game::world::position::ChunkPos;
use vstd::prelude::*;

verus! {

/// A configured render distance as a radius in chunks: the setting itself,
/// held to the range of `i32`.
pub open spec fn radius_of(setting: usize) -> int {
    if setting > i32::MAX {
        i32::MAX as int
    } else {
        setting as int
    }
}

/// `v` brought into the range of `i32` by adding a multiple of 2^32.
pub open spec fn wrap_i32(v: int) -> i32 {
    ((v + 0x8000_0000) % 0x1_0000_0000 - 0x8000_0000) as i32
}

/// The number of layers of chunks to send along one axis. `delta` is the
/// last streamed coordinate minus the new one.
///
/// An axis that did not move spans the whole view, `2 radius + 1` layers.
/// After a step inside the view volume, of `|delta| <= radius` chunks, the
/// layers to send are those that the step brought into view, `|delta|` of
/// them. After a jump of more than `radius` chunks they are
/// `min(|delta|, 2 radius) + 1`.
pub open spec fn axis_layers(delta: int, radius: int) -> int {
    let distance = if delta < 0 {
        -delta
    } else {
        delta
    };
    if delta == 0 {
        2 * radius + 1
    } else if distance <= radius {
        distance
    } else if distance < 2 * radius {
        distance + 1
    } else {
        2 * radius + 1
    }
}

/// The offsets from the player's new chunk coordinate, along one axis, of
/// the chunks to send, in sending order. `delta` is the last streamed
/// coordinate minus the new one.
///
/// An axis that did not move spans the whole view, `-radius` to `radius`.
/// After a step inside the view volume the offsets are those of the layers
/// that the old volume did not hold, from `radius - |delta| + 1` to `radius`
/// away on the side that the player moved towards. After a jump of more
/// than `radius` chunks the layers are centred on the new coordinate.
pub open spec fn axis_offsets(delta: int, radius: int) -> Seq<int> {
    if delta == 0 {
        Seq::new((2 * radius + 1) as nat, |k: int| k - radius)
    } else {
        let distance = if delta < 0 {
            -delta
        } else {
            delta
        };
        let layers = axis_layers(delta, radius);
        let start = if distance > radius {
            -((layers - 1) / 2)
        } else {
            radius - distance + 1
        };
        if delta < 0 {
            Seq::new(layers as nat, |k: int| k + start)
        } else {
            Seq::new(layers as nat, |k: int| -(k + start))
        }
    }
}

/// The chunk at the given offsets from `center`.
pub open spec fn offset_chunk(center: ChunkPos, ox: int, oy: int, oz: int) -> ChunkPos {
    ChunkPos {
        x: wrap_i32(center.x + ox),
        y: wrap_i32(center.y + oy),
        z: wrap_i32(center.z + oz),
    }
}

/// The chunks at `(ox, oy, zs[0])` to `(ox, oy, zs[count - 1])` from `center`.
pub open spec fn line_chunks(center: ChunkPos, ox: int, oy: int, zs: Seq<int>, count: int) -> Seq<
    ChunkPos,
>
    decreases count,
{
    if count <= 0 {
        Seq::empty()
    } else {
        line_chunks(center, ox, oy, zs, count - 1).push(
            offset_chunk(center, ox, oy, zs[count - 1]),
        )
    }
}

/// The lines at `(ox, ys[0])` to `(ox, ys[count - 1])`, one after the other.
pub open spec fn sheet_chunks(
    center: ChunkPos,
    ox: int,
    ys: Seq<int>,
    zs: Seq<int>,
    count: int,
) -> Seq<ChunkPos>
    decreases count,
{
    if count <= 0 {
        Seq::empty()
    } else {
        sheet_chunks(center, ox, ys, zs, count - 1) + line_chunks(
            center,
            ox,
            ys[count - 1],
            zs,
            zs.len() as int,
        )
    }
}

/// The sheets at `xs[0]` to `xs[count - 1]`, one after the other.
pub open spec fn block_chunks(
    center: ChunkPos,
    xs: Seq<int>,
    ys: Seq<int>,
    zs: Seq<int>,
    count: int,
) -> Seq<ChunkPos>
    decreases count,
{
    if count <= 0 {
        Seq::empty()
    } else {
        block_chunks(center, xs, ys, zs, count - 1) + sheet_chunks(
            center,
            xs[count - 1],
            ys,
            zs,
            ys.len() as int,
        )
    }
}

/// The chunks to send to a player whose chunk coordinate is `center` and
/// whose last streamed coordinate differs from it by `delta`, axis by axis:
/// every combination of the three axes' offsets, x outermost and z
/// innermost. The horizontal radius governs x and z, the vertical one y.
pub open spec fn slab(center: ChunkPos, delta: (int, int, int), horizontal: int, vertical: int) -> Seq<
    ChunkPos,
> {
    let xs = axis_offsets(delta.0, horizontal);
    block_chunks(
        center,
        xs,
        axis_offsets(delta.1, vertical),
        axis_offsets(delta.2, horizontal),
        xs.len() as int,
    )
}

/// The whole view volume around `center`: the cube of chunks within the
/// horizontal radius along x and z and within the vertical radius along y.
pub open spec fn volume_chunks(center: ChunkPos, horizontal: usize, vertical: usize) -> Seq<
    ChunkPos,
> {
    slab(center, (0, 0, 0), radius_of(horizontal), radius_of(vertical))
}

/// The chunks that newly enter the view of a player who was last streamed at
/// `last` and is now at `current`: none while the player stays in one chunk.
pub open spec fn delta_chunks(
    last: ChunkPos,
    current: ChunkPos,
    horizontal: usize,
    vertical: usize,
) -> Seq<ChunkPos> {
    if last == current {
        Seq::empty()
    } else {
        slab(
            current,
            (last.x - current.x, last.y - current.y, last.z - current.z),
            radius_of(horizontal),
            radius_of(vertical),
        )
    }
}

/// The chunks to send to a player who is now at `current`: the whole view
/// volume where nothing was streamed to the player yet, and else the chunks
/// that newly enter the view on the way from the coordinate last streamed
/// around.
pub open spec fn update_chunks(
    last: Option<ChunkPos>,
    current: ChunkPos,
    horizontal: usize,
    vertical: usize,
) -> Seq<ChunkPos> {
    match last {
        None => volume_chunks(current, horizontal, vertical),
        Some(from) => delta_chunks(from, current, horizontal, vertical),
    }
}

/// A render distance as a radius.
fn radius(setting: usize) -> (r: i64)
    ensures
        r == radius_of(setting),
        0 <= r <= i32::MAX,
{
    if setting > 0x7fff_ffff {
        0x7fff_ffff
    } else {
        setting as i64
    }
}

/// `v` wrapped into the range of `i32`.
fn wrap(v: i64) -> (w: i32)
    requires
        -0x100_0000_0000 <= v <= 0x100_0000_0000,
    ensures
        w == wrap_i32(v as int),
{
    let r: i64 = (v + 0x8000_0000 + 0x100_0000_0000) % 0x1_0000_0000;
    (r - 0x8000_0000) as i32
}

/// The offsets to send along one axis.
fn axis_range(delta: i64, radius: i64) -> (offsets: Vec<i64>)
    requires
        -0x1_0000_0000 <= delta <= 0x1_0000_0000,
        0 <= radius <= i32::MAX,
    ensures
        offsets@.len() == axis_offsets(delta as int, radius as int).len(),
        forall|k: int|
            0 <= k < offsets@.len() ==> offsets@[k] == axis_offsets(delta as int, radius as int)[k],
        forall|k: int|
            0 <= k < offsets@.len() ==> -0x4_0000_0000 <= #[trigger] offsets@[k] <= 0x4_0000_0000,
{
    let mut offsets: Vec<i64> = Vec::new();
    if delta == 0 {
        let mut k: i64 = 0;
        while k < 2 * radius + 1
            invariant
                0 <= k <= 2 * radius + 1,
                0 <= radius <= i32::MAX,
                offsets@.len() == k,
                forall|n: int| 0 <= n < k ==> #[trigger] offsets@[n] == n - radius,
            decreases 2 * radius + 1 - k,
        {
            offsets.push(k - radius);
            k += 1;
        }
    } else {
        let distance: i64 = if delta < 0 {
            -delta
        } else {
            delta
        };
        let layers: i64 = if distance <= radius {
            distance
        } else if distance < 2 * radius {
            distance + 1
        } else {
            2 * radius + 1
        };
        let start: i64 = if distance > radius {
            -((layers - 1) / 2)
        } else {
            radius - distance + 1
        };
        let mut k: i64 = 0;
        while k < layers
            invariant
                0 <= k <= layers,
                0 <= layers <= 2 * radius + 1,
                0 <= radius <= i32::MAX,
                -radius <= start <= radius + 1,
                delta != 0,
                offsets@.len() == k,
                forall|n: int|
                    0 <= n < k ==> #[trigger] offsets@[n] == if delta < 0 {
                        n + start
                    } else {
                        -(n + start)
                    },
            decreases layers - k,
        {
            offsets.push(
                if delta < 0 {
                    k + start
                } else {
                    -(k + start)
                },
            );
            k += 1;
        }
    }
    offsets
}

/// The view of a vector of offsets as integers.
spec fn ints(offsets: Seq<i64>) -> Seq<int> {
    Seq::new(offsets.len(), |k: int| offsets[k] as int)
}

/// Every combination of the given offsets around `center`.
fn grid(center: ChunkPos, xs: &Vec<i64>, ys: &Vec<i64>, zs: &Vec<i64>) -> (chunks: Vec<ChunkPos>)
    requires
        forall|k: int| 0 <= k < xs@.len() ==> -0x4_0000_0000 <= #[trigger] xs@[k] <= 0x4_0000_0000,
        forall|k: int| 0 <= k < ys@.len() ==> -0x4_0000_0000 <= #[trigger] ys@[k] <= 0x4_0000_0000,
        forall|k: int| 0 <= k < zs@.len() ==> -0x4_0000_0000 <= #[trigger] zs@[k] <= 0x4_0000_0000,
    ensures
        chunks@ == block_chunks(center, ints(xs@), ints(ys@), ints(zs@), xs@.len() as int),
{
    let ghost gx = ints(xs@);
    let ghost gy = ints(ys@);
    let ghost gz = ints(zs@);
    let mut chunks: Vec<ChunkPos> = Vec::new();
    let mut i: usize = 0;
    while i < xs.len()
        invariant
            i <= xs@.len(),
            gx == ints(xs@),
            gy == ints(ys@),
            gz == ints(zs@),
            forall|k: int|
                0 <= k < xs@.len() ==> -0x4_0000_0000 <= #[trigger] xs@[k] <= 0x4_0000_0000,
            forall|k: int|
                0 <= k < ys@.len() ==> -0x4_0000_0000 <= #[trigger] ys@[k] <= 0x4_0000_0000,
            forall|k: int|
                0 <= k < zs@.len() ==> -0x4_0000_0000 <= #[trigger] zs@[k] <= 0x4_0000_0000,
            chunks@ == block_chunks(center, gx, gy, gz, i as int),
        decreases xs@.len() - i,
    {
        let ox = xs[i];
        let mut j: usize = 0;
        while j < ys.len()
            invariant
                i < xs@.len(),
                j <= ys@.len(),
                ox == xs@[i as int],
                gx == ints(xs@),
                gy == ints(ys@),
                gz == ints(zs@),
                -0x4_0000_0000 <= ox <= 0x4_0000_0000,
                forall|k: int|
                    0 <= k < ys@.len() ==> -0x4_0000_0000 <= #[trigger] ys@[k] <= 0x4_0000_0000,
                forall|k: int|
                    0 <= k < zs@.len() ==> -0x4_0000_0000 <= #[trigger] zs@[k] <= 0x4_0000_0000,
                chunks@ == block_chunks(center, gx, gy, gz, i as int) + sheet_chunks(
                    center,
                    ox as int,
                    gy,
                    gz,
                    j as int,
                ),
            decreases ys@.len() - j,
        {
            let oy = ys[j];
            let mut k: usize = 0;
            while k < zs.len()
                invariant
                    i < xs@.len(),
                    j < ys@.len(),
                    k <= zs@.len(),
                    ox == xs@[i as int],
                    oy == ys@[j as int],
                    gx == ints(xs@),
                    gy == ints(ys@),
                    gz == ints(zs@),
                    -0x4_0000_0000 <= ox <= 0x4_0000_0000,
                    -0x4_0000_0000 <= oy <= 0x4_0000_0000,
                    forall|k: int|
                        0 <= k < zs@.len() ==> -0x4_0000_0000 <= #[trigger] zs@[k]
                            <= 0x4_0000_0000,
                    chunks@ == block_chunks(center, gx, gy, gz, i as int) + sheet_chunks(
                        center,
                        ox as int,
                        gy,
                        gz,
                        j as int,
                    ) + line_chunks(center, ox as int, oy as int, gz, k as int),
                decreases zs@.len() - k,
            {
                let oz = zs[k];
                chunks.push(
                    ChunkPos {
                        x: wrap(center.x as i64 + ox),
                        y: wrap(center.y as i64 + oy),
                        z: wrap(center.z as i64 + oz),
                    },
                );
                assert(chunks@ =~= block_chunks(center, gx, gy, gz, i as int) + sheet_chunks(
                    center,
                    ox as int,
                    gy,
                    gz,
                    j as int,
                ) + line_chunks(center, ox as int, oy as int, gz, k as int + 1));
                k += 1;
            }
            assert(chunks@ =~= block_chunks(center, gx, gy, gz, i as int) + sheet_chunks(
                center,
                ox as int,
                gy,
                gz,
                j as int + 1,
            ));
            j += 1;
        }
        assert(chunks@ =~= block_chunks(center, gx, gy, gz, i as int + 1));
        i += 1;
    }
    chunks
}

/// The chunks to send for the given per-axis deltas.
fn slab_chunks(
    center: ChunkPos,
    dx: i64,
    dy: i64,
    dz: i64,
    horizontal: usize,
    vertical: usize,
) -> (chunks: Vec<ChunkPos>)
    requires
        -0x1_0000_0000 <= dx <= 0x1_0000_0000,
        -0x1_0000_0000 <= dy <= 0x1_0000_0000,
        -0x1_0000_0000 <= dz <= 0x1_0000_0000,
    ensures
        chunks@ == slab(
            center,
            (dx as int, dy as int, dz as int),
            radius_of(horizontal),
            radius_of(vertical),
        ),
{
    let h = radius(horizontal);
    let v = radius(vertical);
    let xs = axis_range(dx, h);
    let ys = axis_range(dy, v);
    let zs = axis_range(dz, h);
    assert(ints(xs@) =~= axis_offsets(dx as int, h as int));
    assert(ints(ys@) =~= axis_offsets(dy as int, v as int));
    assert(ints(zs@) =~= axis_offsets(dz as int, h as int));
    grid(center, &xs, &ys, &zs)
}

/// The chunks of the whole view volume around `center`, in sending order.
pub fn view_volume(center: ChunkPos, horizontal: usize, vertical: usize) -> (chunks: Vec<ChunkPos>)
    ensures
        chunks@ == volume_chunks(center, horizontal, vertical),
{
    slab_chunks(center, 0, 0, 0, horizontal, vertical)
}

/// The chunks that newly enter a player's view on a move from `last` to
/// `current`, in sending order.
pub fn view_delta(last: ChunkPos, current: ChunkPos, horizontal: usize, vertical: usize) -> (chunks:
    Vec<ChunkPos>)
    ensures
        chunks@ == delta_chunks(last, current, horizontal, vertical),
{
    if last == current {
        return Vec::new();
    }
    slab_chunks(
        current,
        last.x as i64 - current.x as i64,
        last.y as i64 - current.y as i64,
        last.z as i64 - current.z as i64,
        horizontal,
        vertical,
    )
}

proof fn lemma_line_len(center: ChunkPos, ox: int, oy: int, zs: Seq<int>, count: int)
    requires
        0 <= count,
    ensures
        line_chunks(center, ox, oy, zs, count).len() == count,
    decreases count,
{
    if count > 0 {
        lemma_line_len(center, ox, oy, zs, count - 1);
    }
}

proof fn lemma_sheet_len(center: ChunkPos, ox: int, ys: Seq<int>, zs: Seq<int>, count: int)
    requires
        0 <= count,
    ensures
        sheet_chunks(center, ox, ys, zs, count).len() == count * zs.len(),
    decreases count,
{
    if count > 0 {
        lemma_sheet_len(center, ox, ys, zs, count - 1);
        lemma_line_len(center, ox, ys[count - 1], zs, zs.len() as int);
        assert((count - 1) * zs.len() + zs.len() == count * zs.len()) by (nonlinear_arith);
    } else {
        assert(0 * zs.len() == 0);
    }
}

proof fn lemma_block_len(center: ChunkPos, xs: Seq<int>, ys: Seq<int>, zs: Seq<int>, count: int)
    requires
        0 <= count,
    ensures
        block_chunks(center, xs, ys, zs, count).len() == count * (ys.len() * zs.len()),
    decreases count,
{
    if count > 0 {
        lemma_block_len(center, xs, ys, zs, count - 1);
        lemma_sheet_len(center, xs[count - 1], ys, zs, ys.len() as int);
        assert((count - 1) * (ys.len() * zs.len()) + ys.len() * zs.len() == count * (ys.len()
            * zs.len())) by (nonlinear_arith);
    } else {
        assert(0 * (ys.len() * zs.len()) == 0);
    }
}

/// A slab holds one chunk for every combination of its three axes' layers.
pub proof fn lemma_slab_len(center: ChunkPos, delta: (int, int, int), horizontal: int, vertical: int)
    requires
        0 <= horizontal,
        0 <= vertical,
    ensures
        slab(center, delta, horizontal, vertical).len() == axis_layers(delta.0, horizontal) * (
        axis_layers(delta.1, vertical) * axis_layers(delta.2, horizontal)),
{
    let xs = axis_offsets(delta.0, horizontal);
    let ys = axis_offsets(delta.1, vertical);
    let zs = axis_offsets(delta.2, horizontal);
    assert(xs.len() == axis_layers(delta.0, horizontal));
    assert(ys.len() == axis_layers(delta.1, vertical));
    assert(zs.len() == axis_layers(delta.2, horizontal));
    lemma_block_len(center, xs, ys, zs, xs.len() as int);
}

/// The whole view volume holds `(2H + 1)(2V + 1)(2H + 1)` chunks.
pub proof fn lemma_volume_len(center: ChunkPos, horizontal: usize, vertical: usize)
    ensures
        volume_chunks(center, horizontal, vertical).len() == (2 * radius_of(horizontal) + 1) * ((2
            * radius_of(vertical) + 1) * (2 * radius_of(horizontal) + 1)),
{
    lemma_slab_len(center, (0, 0, 0), radius_of(horizontal), radius_of(vertical));
}

/// A move never sends more chunks than the whole view volume holds, and
/// sends none while the player stays in one chunk.
pub proof fn lemma_delta_within_volume(
    last: ChunkPos,
    current: ChunkPos,
    horizontal: usize,
    vertical: usize,
)
    ensures
        delta_chunks(last, current, horizontal, vertical).len() <= volume_chunks(
            current,
            horizontal,
            vertical,
        ).len(),
        last == current ==> delta_chunks(last, current, horizontal, vertical).len() == 0,
{
    let h = radius_of(horizontal);
    let v = radius_of(vertical);
    lemma_volume_len(current, horizontal, vertical);
    if last != current {
        let d = (last.x - current.x, last.y - current.y, last.z - current.z);
        lemma_slab_len(current, d, h, v);
        let a = axis_layers(d.0, h);
        let b = axis_layers(d.1, v);
        let c = axis_layers(d.2, h);
        assert(a * (b * c) <= (2 * h + 1) * ((2 * v + 1) * (2 * h + 1))) by (nonlinear_arith)
            requires
                0 <= a <= 2 * h + 1,
                0 <= b <= 2 * v + 1,
                0 <= c <= 2 * h + 1,
        ;
    }
}

/// A step of `distance` chunks along x alone, no further than the
/// horizontal radius, sends `distance` layers of the full height and depth
/// of the view: fewer chunks than the whole volume.
pub proof fn lemma_step_along_x(
    last: ChunkPos,
    current: ChunkPos,
    horizontal: usize,
    vertical: usize,
    distance: int,
)
    requires
        last.y == current.y,
        last.z == current.z,
        0 < distance <= radius_of(horizontal),
        last.x - current.x == distance || current.x - last.x == distance,
    ensures
        delta_chunks(last, current, horizontal, vertical).len() == distance * ((2 * radius_of(
            vertical,
        ) + 1) * (2 * radius_of(horizontal) + 1)),
        delta_chunks(last, current, horizontal, vertical).len() < volume_chunks(
            current,
            horizontal,
            vertical,
        ).len(),
{
    let h = radius_of(horizontal);
    let v = radius_of(vertical);
    lemma_volume_len(current, horizontal, vertical);
    lemma_slab_len(current, (last.x - current.x, 0, 0), h, v);
    let rest = (2 * v + 1) * (2 * h + 1);
    assert(rest > 0) by (nonlinear_arith)
        requires
            rest == (2 * v + 1) * (2 * h + 1),
            h >= 0,
            v >= 0,
    ;
    assert(distance * rest < (2 * h + 1) * rest) by (nonlinear_arith)
        requires
            rest > 0,
            0 < distance <= h,
    ;
}

/// The chunks to send to a player who is now at `current` and was last
/// streamed around `last`, if ever, in sending order.
pub fn view_update(
    last: Option<ChunkPos>,
    current: ChunkPos,
    horizontal: usize,
    vertical: usize,
) -> (chunks: Vec<ChunkPos>)
    ensures
        chunks@ == update_chunks(last, current, horizontal, vertical),
{
    match last {
        None => view_volume(current, horizontal, vertical),
        Some(from) => view_delta(from, current, horizontal, vertical),
    }
}

proof fn lemma_line_index(center: ChunkPos, ox: int, oy: int, zs: Seq<int>, count: int, k: int)
    requires
        0 <= k < count,
    ensures
        line_chunks(center, ox, oy, zs, count)[k] == offset_chunk(center, ox, oy, zs[k]),
    decreases count,
{
    lemma_line_len(center, ox, oy, zs, count - 1);
    if k < count - 1 {
        lemma_line_index(center, ox, oy, zs, count - 1, k);
    }
}

proof fn lemma_sheet_index(
    center: ChunkPos,
    ox: int,
    ys: Seq<int>,
    zs: Seq<int>,
    count: int,
    j: int,
    k: int,
)
    requires
        0 <= j < count,
        0 <= k < zs.len(),
    ensures
        0 <= j * zs.len() + k < sheet_chunks(center, ox, ys, zs, count).len(),
        sheet_chunks(center, ox, ys, zs, count)[j * zs.len() + k] == offset_chunk(
            center,
            ox,
            ys[j],
            zs[k],
        ),
    decreases count,
{
    let n = zs.len() as int;
    lemma_sheet_len(center, ox, ys, zs, count - 1);
    lemma_sheet_len(center, ox, ys, zs, count);
    lemma_line_len(center, ox, ys[count - 1], zs, n);
    assert(0 <= j * n + k < count * n) by (nonlinear_arith)
        requires
            0 <= j < count,
            0 <= k < n,
    ;
    if j < count - 1 {
        lemma_sheet_index(center, ox, ys, zs, count - 1, j, k);
    } else {
        lemma_line_index(center, ox, ys[count - 1], zs, n, k);
        assert(j * n + k - (count - 1) * n == k) by (nonlinear_arith)
            requires
                j == count - 1,
        ;
    }
}

/// Where each chunk of a slab stands: the chunk at the offsets
/// `(xs[i], ys[j], zs[k])` is the one at index `(i |ys| + j) |zs| + k`.
pub proof fn lemma_block_index(
    center: ChunkPos,
    xs: Seq<int>,
    ys: Seq<int>,
    zs: Seq<int>,
    count: int,
    i: int,
    j: int,
    k: int,
)
    requires
        0 <= i < count,
        0 <= j < ys.len(),
        0 <= k < zs.len(),
    ensures
        0 <= (i * ys.len() + j) * zs.len() + k < block_chunks(center, xs, ys, zs, count).len(),
        block_chunks(center, xs, ys, zs, count)[(i * ys.len() + j) * zs.len() + k] == offset_chunk(
            center,
            xs[i],
            ys[j],
            zs[k],
        ),
    decreases count,
{
    let m = ys.len() as int;
    let n = zs.len() as int;
    lemma_block_len(center, xs, ys, zs, count - 1);
    lemma_block_len(center, xs, ys, zs, count);
    lemma_sheet_len(center, xs[count - 1], ys, zs, m);
    let at = (i * m + j) * n + k;
    assert(0 <= at < count * (m * n) && at == i * (m * n) + (j * n + k) && 0 <= j * n + k < m * n)
        by (nonlinear_arith)
        requires
            at == (i * m + j) * n + k,
            0 <= i < count,
            0 <= j < m,
            0 <= k < n,
    ;
    if i < count - 1 {
        lemma_block_index(center, xs, ys, zs, count - 1, i, j, k);
        assert(at < (count - 1) * (m * n)) by (nonlinear_arith)
            requires
                at == i * (m * n) + (j * n + k),
                0 <= j * n + k < m * n,
                0 <= i < count - 1,
        ;
    } else {
        lemma_sheet_index(center, xs[count - 1], ys, zs, m, j, k);
        assert(at - (count - 1) * (m * n) == j * n + k) by (nonlinear_arith)
            requires
                at == i * (m * n) + (j * n + k),
                i == count - 1,
        ;
    }
}

/// After a step along x alone, no further than the horizontal radius, the
/// slab holds every chunk that the step brought into view: every chunk of
/// the new view volume whose x lies beyond the old one.
pub proof fn lemma_step_along_x_covers_the_new_view(
    last: ChunkPos,
    current: ChunkPos,
    horizontal: usize,
    vertical: usize,
    ox: int,
    oy: int,
    oz: int,
)
    requires
        last.y == current.y,
        last.z == current.z,
        last.x != current.x,
        -radius_of(horizontal) <= last.x - current.x <= radius_of(horizontal),
        -radius_of(horizontal) <= ox <= radius_of(horizontal),
        -radius_of(vertical) <= oy <= radius_of(vertical),
        -radius_of(horizontal) <= oz <= radius_of(horizontal),
        ox > last.x - current.x + radius_of(horizontal) || ox < last.x - current.x - radius_of(
            horizontal,
        ),
    ensures
        delta_chunks(last, current, horizontal, vertical).contains(
            offset_chunk(current, ox, oy, oz),
        ),
{
    let h = radius_of(horizontal);
    let v = radius_of(vertical);
    let d = last.x - current.x;
    let xs = axis_offsets(d, h);
    let ys = axis_offsets(0, v);
    let zs = axis_offsets(0, h);
    let i = if d < 0 {
        ox - (h + d + 1)
    } else {
        -ox - (h - d + 1)
    };
    let j = oy + v;
    let k = oz + h;
    assert(xs[i] == ox);
    assert(ys[j] == oy);
    assert(zs[k] == oz);
    lemma_block_index(current, xs, ys, zs, xs.len() as int, i, j, k);
}

/// The view volume holds every chunk within the horizontal radius along x
/// and z and within the vertical radius along y.
pub proof fn lemma_volume_covers_the_view(
    center: ChunkPos,
    horizontal: usize,
    vertical: usize,
    ox: int,
    oy: int,
    oz: int,
)
    requires
        -radius_of(horizontal) <= ox <= radius_of(horizontal),
        -radius_of(vertical) <= oy <= radius_of(vertical),
        -radius_of(horizontal) <= oz <= radius_of(horizontal),
    ensures
        volume_chunks(center, horizontal, vertical).contains(offset_chunk(center, ox, oy, oz)),
{
    let h = radius_of(horizontal);
    let v = radius_of(vertical);
    let xs = axis_offsets(0, h);
    let ys = axis_offsets(0, v);
    assert(xs[ox + h] == ox);
    assert(ys[oy + v] == oy);
    assert(xs[oz + h] == oz);
    lemma_block_index(center, xs, ys, xs, xs.len() as int, ox + h, oy + v, oz + h);
}

proof fn lemma_sheet_member(
    center: ChunkPos,
    ox: int,
    ys: Seq<int>,
    zs: Seq<int>,
    count: int,
    at: int,
)
    requires
        0 <= count,
        0 <= at < sheet_chunks(center, ox, ys, zs, count).len(),
    ensures
        exists|j: int, k: int|
            0 <= j < count && 0 <= k < zs.len() && sheet_chunks(center, ox, ys, zs, count)[at]
                == offset_chunk(center, ox, #[trigger] ys[j], #[trigger] zs[k]),
    decreases count,
{
    if count > 0 {
        lemma_sheet_len(center, ox, ys, zs, count - 1);
        lemma_line_len(center, ox, ys[count - 1], zs, zs.len() as int);
        let before = sheet_chunks(center, ox, ys, zs, count - 1).len() as int;
        if at < before {
            lemma_sheet_member(center, ox, ys, zs, count - 1, at);
        } else {
            lemma_line_index(center, ox, ys[count - 1], zs, zs.len() as int, at - before);
            assert(sheet_chunks(center, ox, ys, zs, count)[at] == offset_chunk(
                center,
                ox,
                ys[count - 1],
                zs[at - before],
            ));
        }
    }
}

/// Every chunk of a slab is the chunk at one combination of the three axes'
/// offsets.
pub proof fn lemma_block_member(
    center: ChunkPos,
    xs: Seq<int>,
    ys: Seq<int>,
    zs: Seq<int>,
    count: int,
    at: int,
)
    requires
        0 <= count,
        0 <= at < block_chunks(center, xs, ys, zs, count).len(),
    ensures
        exists|i: int, j: int, k: int|
            0 <= i < count && 0 <= j < ys.len() && 0 <= k < zs.len() && block_chunks(
                center,
                xs,
                ys,
                zs,
                count,
            )[at] == offset_chunk(center, #[trigger] xs[i], #[trigger] ys[j], #[trigger] zs[k]),
    decreases count,
{
    if count > 0 {
        lemma_block_len(center, xs, ys, zs, count - 1);
        let before = block_chunks(center, xs, ys, zs, count - 1).len() as int;
        if at < before {
            lemma_block_member(center, xs, ys, zs, count - 1, at);
        } else {
            lemma_sheet_member(center, xs[count - 1], ys, zs, ys.len() as int, at - before);
            let (j, k) = choose|j: int, k: int|
                0 <= j < ys.len() && 0 <= k < zs.len() && sheet_chunks(
                    center,
                    xs[count - 1],
                    ys,
                    zs,
                    ys.len() as int,
                )[at - before] == offset_chunk(center, xs[count - 1], #[trigger] ys[j], #[trigger] zs[k]);
            assert(block_chunks(center, xs, ys, zs, count)[at] == offset_chunk(
                center,
                xs[count - 1],
                ys[j],
                zs[k],
            ));
        }
    }
}

/// Whether the chunk at `(ox, oy, oz)` from the new coordinate lies in the
/// new view volume and, along x, outside the old one, whose centre is
/// `delta` away from the new one.
pub open spec fn newly_in_view_along_x(
    delta: int,
    horizontal: int,
    vertical: int,
    ox: int,
    oy: int,
    oz: int,
) -> bool {
    &&& -horizontal <= ox <= horizontal
    &&& -vertical <= oy <= vertical
    &&& -horizontal <= oz <= horizontal
    &&& ox > delta + horizontal || ox < delta - horizontal
}

/// After a step along x alone, no further than the horizontal radius, every
/// chunk of the slab is one that the step brought into view: it lies in the
/// new view volume and not in the old one.
pub proof fn lemma_step_along_x_sends_only_the_new_view(
    last: ChunkPos,
    current: ChunkPos,
    horizontal: usize,
    vertical: usize,
    at: int,
)
    requires
        last.y == current.y,
        last.z == current.z,
        last.x != current.x,
        -radius_of(horizontal) <= last.x - current.x <= radius_of(horizontal),
        0 <= at < delta_chunks(last, current, horizontal, vertical).len(),
    ensures
        exists|ox: int, oy: int, oz: int|
            newly_in_view_along_x(
                last.x - current.x,
                radius_of(horizontal),
                radius_of(vertical),
                ox,
                oy,
                oz,
            ) && delta_chunks(last, current, horizontal, vertical)[at] == #[trigger] offset_chunk(
                current,
                ox,
                oy,
                oz,
            ),
{
    let h = radius_of(horizontal);
    let v = radius_of(vertical);
    let d = last.x - current.x;
    let xs = axis_offsets(d, h);
    let ys = axis_offsets(0, v);
    let zs = axis_offsets(0, h);
    lemma_block_member(current, xs, ys, zs, xs.len() as int, at);
    let (i, j, k) = choose|i: int, j: int, k: int|
        0 <= i < xs.len() && 0 <= j < ys.len() && 0 <= k < zs.len() && block_chunks(
            current,
            xs,
            ys,
            zs,
            xs.len() as int,
        )[at] == offset_chunk(current, #[trigger] xs[i], #[trigger] ys[j], #[trigger] zs[k]);
    assert(newly_in_view_along_x(d, h, v, xs[i], ys[j], zs[k]));
}

} // verus!
