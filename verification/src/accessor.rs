//! The accessor/buffer builder: a typed-array batching utility.
//!
//! Arrays are appended region by region: all arrays of one byte stride and
//! one usage category share a single buffer region, in insertion order, and
//! each array gets an accessor recording its region, byte offset, element
//! count and component-wise minimum and maximum.  Float components are
//! carried and compared as IEEE-754 bit patterns: on non-NaN values the
//! comparison is the usual numeric order.

use vstd::prelude::*;

verus! {

/// Usage category of a buffer region.
#[derive(Clone, Copy, Debug, PartialEq, Eq, Hash, Structural)]
pub enum BufferType {
    Mesh,
    Skin,
    Animation,
}

/// Component type of an accessor: 16-bit unsigned integers or 32-bit floats
/// (carried as bit patterns).
#[derive(Clone, Copy, Debug, PartialEq, Eq, Hash, Structural)]
pub enum ComponentKind {
    U16,
    F32,
}

/// Byte size of one component.
pub open spec fn spec_component_size(k: ComponentKind) -> int {
    match k {
        ComponentKind::U16 => 2,
        ComponentKind::F32 => 4,
    }
}

/// Total-order key of a component value: for 16-bit integers the value
/// itself; for floats a monotone rearrangement of the bit pattern that
/// orders non-NaN values numerically (negative below positive, bigger
/// magnitudes further out).
pub open spec fn spec_ord_key(k: ComponentKind, v: u32) -> int {
    match k {
        ComponentKind::U16 => v as int,
        ComponentKind::F32 => if v >= 0x8000_0000 {
            0xFFFF_FFFF - v
        } else {
            v + 0x8000_0000
        },
    }
}

/// The smaller of two component values under the kind's order.
pub open spec fn spec_comp_min(k: ComponentKind, a: u32, b: u32) -> u32 {
    if spec_ord_key(k, b) < spec_ord_key(k, a) {
        b
    } else {
        a
    }
}

/// The larger of two component values under the kind's order.
pub open spec fn spec_comp_max(k: ComponentKind, a: u32, b: u32) -> u32 {
    if spec_ord_key(k, b) > spec_ord_key(k, a) {
        b
    } else {
        a
    }
}

/// The fold seed for minima: the largest finite value of the kind.
pub open spec fn spec_min_seed(k: ComponentKind) -> u32 {
    match k {
        ComponentKind::U16 => 0xFFFF,
        ComponentKind::F32 => 0x7F7F_FFFF,
    }
}

/// The fold seed for maxima: the smallest value of the kind (for floats,
/// the most negative finite value).
pub open spec fn spec_max_seed(k: ComponentKind) -> u32 {
    match k {
        ComponentKind::U16 => 0,
        ComponentKind::F32 => 0xFF7F_FFFF,
    }
}

/// Running minimum of component `c` over the first `n` rows, seeded with
/// the kind's largest value.
pub open spec fn spec_fold_min(k: ComponentKind, rows: Seq<Vec<u32>>, c: int, n: int) -> u32
    decreases n,
{
    if n <= 0 {
        spec_min_seed(k)
    } else {
        spec_comp_min(k, spec_fold_min(k, rows, c, n - 1), rows[n - 1]@[c])
    }
}

/// Running maximum of component `c` over the first `n` rows.
pub open spec fn spec_fold_max(k: ComponentKind, rows: Seq<Vec<u32>>, c: int, n: int) -> u32
    decreases n,
{
    if n <= 0 {
        spec_max_seed(k)
    } else {
        spec_comp_max(k, spec_fold_max(k, rows, c, n - 1), rows[n - 1]@[c])
    }
}

/// Little-endian encoding of one component value.
pub open spec fn spec_comp_bytes(k: ComponentKind, v: u32) -> Seq<u8> {
    match k {
        ComponentKind::U16 => crate::stream::spec_u16_bytes(false, v as u16),
        ComponentKind::F32 => crate::stream::spec_u32_bytes(false, v),
    }
}

/// Little-endian encoding of one row of components.
pub open spec fn spec_row_bytes(k: ComponentKind, row: Seq<u32>) -> Seq<u8>
    decreases row.len(),
{
    if row.len() == 0 {
        Seq::empty()
    } else {
        spec_row_bytes(k, row.drop_last()) + spec_comp_bytes(k, row.last())
    }
}

/// Little-endian encoding of the first `n` rows.
pub open spec fn spec_rows_bytes(k: ComponentKind, rows: Seq<Vec<u32>>, n: int) -> Seq<u8>
    decreases n,
{
    if n <= 0 {
        Seq::empty()
    } else {
        spec_rows_bytes(k, rows, n - 1) + spec_row_bytes(k, rows[n - 1]@)
    }
}

/// One encoded row takes its component count times the component size.
pub proof fn lemma_row_bytes_len(k: ComponentKind, row: Seq<u32>)
    ensures
        spec_row_bytes(k, row).len() == row.len() * spec_component_size(k),
    decreases row.len(),
{
    if row.len() != 0 {
        lemma_row_bytes_len(k, row.drop_last());
        assert((row.len() - 1) * spec_component_size(k) + spec_component_size(k) == row.len()
            * spec_component_size(k)) by (nonlinear_arith);
    }
}

/// The first `n` encoded rows of arity `m` take `n * m * size` bytes.
pub proof fn lemma_rows_bytes_len(k: ComponentKind, rows: Seq<Vec<u32>>, n: int, m: int)
    requires
        0 <= n <= rows.len(),
        forall|i: int| 0 <= i < rows.len() ==> (#[trigger] rows[i])@.len() == m,
    ensures
        spec_rows_bytes(k, rows, n).len() == n * m * spec_component_size(k),
    decreases n,
{
    if n > 0 {
        lemma_rows_bytes_len(k, rows, n - 1, m);
        lemma_row_bytes_len(k, rows[n - 1]@);
        assert(spec_rows_bytes(k, rows, n).len() == spec_rows_bytes(k, rows, n - 1).len()
            + spec_row_bytes(k, rows[n - 1]@).len());
        assert(spec_row_bytes(k, rows[n - 1]@).len() == m * spec_component_size(k));
        assert((n - 1) * m * spec_component_size(k) + m * spec_component_size(k) == n * m
            * spec_component_size(k)) by (nonlinear_arith);
    } else {
        assert(spec_rows_bytes(k, rows, n).len() == 0);
        assert(n * m * spec_component_size(k) == 0) by (nonlinear_arith)
            requires
                n == 0,
        ;
    }
}

/// One buffer region: all arrays of one (stride, category) pair, appended
/// in insertion order.
#[derive(Debug)]
pub struct BufferRegion {
    pub stride: usize,
    pub buffer_type: BufferType,
    pub data: Vec<u8>,
}

/// One accessor: where an array sits (region index and byte offset), how
/// many rows it has, its component kind and arity, its component-wise
/// minimum and maximum, and its name.
#[derive(Debug)]
pub struct Accessor {
    pub buffer_view: usize,
    pub byte_offset: usize,
    pub count: usize,
    pub kind: ComponentKind,
    pub n_comp: usize,
    pub min: Vec<u32>,
    pub max: Vec<u32>,
    pub name: Option<String>,
}

/// One generated buffer view: a padded region's placement in the final
/// buffer blob.
#[derive(Debug)]
pub struct BufferView {
    pub byte_length: usize,
    pub byte_offset: usize,
    pub byte_stride: Option<usize>,
}

/// Batches typed arrays into shared buffer regions; see the module
/// documentation.
#[derive(Debug)]
pub struct AccessorBuilder {
    pub working_data: Vec<BufferRegion>,
    pub accessors: Vec<Accessor>,
}

/// No two regions share a (stride, category) pair, so each array lands in
/// exactly one region.
pub open spec fn spec_regions_unique(rs: Seq<BufferRegion>) -> bool {
    forall|i: int, j: int|
        0 <= i < j < rs.len() ==> !((#[trigger] rs[i]).stride == (#[trigger] rs[j]).stride
            && rs[i].buffer_type == rs[j].buffer_type)
}

impl AccessorBuilder {
    pub fn new() -> (r: AccessorBuilder)
        ensures
            r.working_data@.len() == 0,
            r.accessors@.len() == 0,
            spec_regions_unique(r.working_data@),
    {
        AccessorBuilder { working_data: Vec::new(), accessors: Vec::new() }
    }

    /// Index of the region with this stride and category, if any.
    fn find_region(&self, stride: usize, buffer_type: BufferType) -> (r: Option<usize>)
        ensures
            (match spec_find_region(self.working_data@, stride as int, buffer_type) {
                Some(i) => 0 <= i < self.working_data@.len() && r == Some(i as usize),
                None => r is None,
            }),
            match r {
                Some(i) => i < self.working_data@.len() && self.working_data@[i as int].stride
                    == stride && self.working_data@[i as int].buffer_type == buffer_type,
                None => forall|i: int|
                    0 <= i < self.working_data@.len() ==> !((#[trigger] self.working_data@[
                    i]).stride == stride && self.working_data@[i].buffer_type == buffer_type),
            },
    {
        let mut i: usize = 0;
        while i < self.working_data.len()
            invariant
                i <= self.working_data@.len(),
                forall|j: int|
                    0 <= j < i ==> !((#[trigger] self.working_data@[j]).stride == stride
                        && self.working_data@[j].buffer_type == buffer_type),
            decreases self.working_data@.len() - i,
        {
            proof {
                lemma_find_region_bounds(self.working_data@, stride as int, buffer_type);
            }
            if self.working_data[i].stride == stride && matches_buffer_type(
                &self.working_data[i].buffer_type,
                &buffer_type,
            ) {
                proof {
                    lemma_find_region_first(
                        self.working_data@,
                        stride as int,
                        buffer_type,
                        i as int,
                    );
                }
                return Some(i);
            }
            i = i + 1;
        }
        proof {
            lemma_find_region_none(self.working_data@, stride as int, buffer_type);
            lemma_find_region_bounds(self.working_data@, stride as int, buffer_type);
        }
        None
    }

    /// Adds one typed array: encodes its rows little-endian, appends them to
    /// the region of their stride and category (creating the region if none
    /// exists — two same-stride, same-category arrays share one region, in
    /// insertion order), and records an accessor with the component-wise
    /// minimum and maximum.  An empty array adds nothing.
    pub fn add_array(
        &mut self,
        name: String,
        kind: ComponentKind,
        n_comp: usize,
        rows: Vec<Vec<u32>>,
        buffer_type: BufferType,
    ) -> (r: Option<usize>)
        requires
            n_comp == 1 || n_comp == 2 || n_comp == 3 || n_comp == 4 || n_comp == 9 || n_comp
                == 16,
            forall|i: int| 0 <= i < rows@.len() ==> (#[trigger] rows@[i])@.len() == n_comp,
            kind is U16 ==> forall|i: int, c: int|
                0 <= i < rows@.len() && 0 <= c < n_comp ==> (#[trigger] rows@[i]@[c]) <= 0xFFFF,
            n_comp * spec_component_size(kind) * rows@.len() + 0x10000 <= usize::MAX,
            forall|i: int|
                0 <= i < old(self).working_data@.len() ==> (#[trigger] old(self).working_data@[
                i]).data@.len() + n_comp * spec_component_size(kind) * rows@.len() <= usize::MAX,
            spec_regions_unique(old(self).working_data@),
        ensures
            spec_regions_unique(final(self).working_data@),
            match r {
                Some(idx) => {
                    let stride = n_comp * spec_component_size(kind);
                    let bytes = spec_rows_bytes(kind, rows@, rows@.len() as int);
                    &&& rows@.len() > 0
                    &&& idx == old(self).accessors@.len()
                    &&& final(self).accessors@.len() == old(self).accessors@.len() + 1
                    &&& final(self).accessors@.subrange(0, idx as int) == old(self).accessors@
                    &&& {
                        let acc = final(self).accessors@[idx as int];
                        &&& acc.count == rows@.len()
                        &&& acc.kind == kind
                        &&& acc.n_comp == n_comp
                        &&& acc.min@ == Seq::new(
                            n_comp as nat,
                            |c: int| spec_fold_min(kind, rows@, c, rows@.len() as int),
                        )
                        &&& acc.max@ == Seq::new(
                            n_comp as nat,
                            |c: int| spec_fold_max(kind, rows@, c, rows@.len() as int),
                        )
                        &&& (acc.name matches Some(n) ==> n@ == name@)
                        &&& (name@.len() > 0 ==> (acc.name matches Some(n) && n@ == name@))
                        &&& (name@.len() == 0 ==> acc.name is None)
                        &&& acc.buffer_view < final(self).working_data@.len()
                        &&& {
                            let reg = final(self).working_data@[acc.buffer_view as int];
                            &&& reg.stride == stride
                            &&& reg.buffer_type == buffer_type
                            &&& reg.data@.subrange(
                                acc.byte_offset as int,
                                reg.data@.len() as int,
                            ) == bytes
                        }
                        &&& (match spec_find_region(
                            old(self).working_data@,
                            stride as int,
                            buffer_type,
                        ) {
                            Some(j) => {
                                &&& acc.buffer_view == j
                                &&& final(self).working_data@.len() == old(
                                    self,
                                ).working_data@.len()
                                &&& final(self).working_data@[j].data@ == old(
                                    self,
                                ).working_data@[j].data@ + bytes
                                &&& acc.byte_offset == old(self).working_data@[j].data@.len()
                                &&& forall|m: int|
                                    0 <= m < final(self).working_data@.len() && m != j
                                        ==> #[trigger] final(self).working_data@[m] == old(
                                        self,
                                    ).working_data@[m]
                            },
                            None => {
                                &&& acc.buffer_view == old(self).working_data@.len()
                                &&& final(self).working_data@.len() == old(
                                    self,
                                ).working_data@.len() + 1
                                &&& final(self).working_data@[acc.buffer_view as int].data@
                                    == bytes
                                &&& acc.byte_offset == 0
                                &&& forall|m: int|
                                    0 <= m < old(self).working_data@.len()
                                        ==> #[trigger] final(self).working_data@[m] == old(
                                        self,
                                    ).working_data@[m]
                            },
                        })
                    }
                },
                None => rows@.len() == 0 && *final(self) == *old(self),
            },
    {
        if rows.len() == 0 {
            return None;
        }
        let comp_size: usize = match kind {
            ComponentKind::U16 => 2,
            ComponentKind::F32 => 4,
        };
        let stride = n_comp * comp_size;
        let mut data_stream: Vec<u8> = Vec::new();
        let mut mins: Vec<u32> = Vec::new();
        let mut maxs: Vec<u32> = Vec::new();
        let min_seed: u32 = match kind {
            ComponentKind::U16 => 0xFFFF,
            ComponentKind::F32 => 0x7F7F_FFFF,
        };
        let max_seed: u32 = match kind {
            ComponentKind::U16 => 0,
            ComponentKind::F32 => 0xFF7F_FFFF,
        };
        let mut c: usize = 0;
        while c < n_comp
            invariant
                *self == *old(self),
                c <= n_comp,
                mins@.len() == c,
                maxs@.len() == c,
                forall|x: int| 0 <= x < c ==> mins@[x] == spec_min_seed(kind),
                forall|x: int| 0 <= x < c ==> maxs@[x] == spec_max_seed(kind),
                min_seed == spec_min_seed(kind),
                max_seed == spec_max_seed(kind),
            decreases n_comp - c,
        {
            mins.push(min_seed);
            maxs.push(max_seed);
            c = c + 1;
        }
        let mut i: usize = 0;
        proof {
            assert(spec_rows_bytes(kind, rows@, 0) =~= Seq::<u8>::empty());
        }
        while i < rows.len()
            invariant
                *self == *old(self),
                i <= rows@.len(),
                mins@.len() == n_comp,
                maxs@.len() == n_comp,
                forall|x: int| 0 <= x < rows@.len() ==> (#[trigger] rows@[x])@.len() == n_comp,
                kind is U16 ==> forall|x: int, y: int|
                    0 <= x < rows@.len() && 0 <= y < n_comp ==> (#[trigger] rows@[x]@[y]) <= 0xFFFF,
                forall|x: int| 0 <= x < n_comp ==> mins@[x] == spec_fold_min(kind, rows@, x, i as int),
                forall|x: int| 0 <= x < n_comp ==> maxs@[x] == spec_fold_max(kind, rows@, x, i as int),
                data_stream@ == spec_rows_bytes(kind, rows@, i as int),
            decreases rows@.len() - i,
        {
            let row = &rows[i];
            let ghost row_pre = data_stream@;
            let mut j: usize = 0;
            proof {
                assert(spec_row_bytes(kind, row@.take(0)) =~= Seq::<u8>::empty());
                assert(data_stream@ =~= row_pre + spec_row_bytes(kind, row@.take(0)));
            }
            while j < row.len()
                invariant
                    *self == *old(self),
                    j <= row@.len(),
                    row@.len() == n_comp,
                    row@ == rows@[i as int]@,
                    i < rows@.len(),
                    mins@.len() == n_comp,
                    maxs@.len() == n_comp,
                    kind is U16 ==> forall|y: int| 0 <= y < n_comp ==> row@[y] <= 0xFFFF,
                    forall|x: int|
                        j <= x < n_comp ==> #[trigger] mins@[x] == spec_fold_min(
                            kind,
                            rows@,
                            x,
                            i as int,
                        ),
                    forall|x: int|
                        j <= x < n_comp ==> #[trigger] maxs@[x] == spec_fold_max(
                            kind,
                            rows@,
                            x,
                            i as int,
                        ),
                    forall|x: int|
                        0 <= x < j ==> #[trigger] mins@[x] == spec_comp_min(
                            kind,
                            spec_fold_min(kind, rows@, x, i as int),
                            row@[x],
                        ),
                    forall|x: int|
                        0 <= x < j ==> #[trigger] maxs@[x] == spec_comp_max(
                            kind,
                            spec_fold_max(kind, rows@, x, i as int),
                            row@[x],
                        ),
                    data_stream@ == row_pre + spec_row_bytes(kind, row@.take(j as int)),
                decreases row@.len() - j,
            {
                let v = row[j];
                let ghost ds_pre = data_stream@;
                match kind {
                    ComponentKind::U16 => {
                        let lo = (v % 0x100) as u8;
                        let hi = ((v / 0x100) % 0x100) as u8;
                        data_stream.push(lo);
                        data_stream.push(hi);
                        proof {
                            assert(v <= 0xFFFF);
                            assert((v as u16) % 0x100 == v % 0x100);
                            assert((v as u16) / 0x100 == (v / 0x100) % 0x100);
                            assert(data_stream@ =~= ds_pre + spec_comp_bytes(kind, v));
                        }
                    },
                    ComponentKind::F32 => {
                        let b0 = ((v / 0x1000000) % 0x100) as u8;
                        let b1 = ((v / 0x10000) % 0x100) as u8;
                        let b2 = ((v / 0x100) % 0x100) as u8;
                        let b3 = (v % 0x100) as u8;
                        data_stream.push(b3);
                        data_stream.push(b2);
                        data_stream.push(b1);
                        data_stream.push(b0);
                        proof {
                            assert(data_stream@ =~= ds_pre + spec_comp_bytes(kind, v));
                        }
                    },
                }
                let cur_min = mins[j];
                if ord_key(kind, v) < ord_key(kind, cur_min) {
                    mins[j] = v;
                }
                let cur_max = maxs[j];
                if ord_key(kind, v) > ord_key(kind, cur_max) {
                    maxs[j] = v;
                }
                j = j + 1;
                proof {
                    assert(row@.take(j as int).drop_last() =~= row@.take(j - 1));
                    assert(row@.take(j as int).last() == row@[j - 1]);
                    assert(data_stream@ =~= row_pre + spec_row_bytes(kind, row@.take(j as int)));
                }
            }
            i = i + 1;
            proof {
                assert(row@.take(row@.len() as int) =~= row@);
                assert(data_stream@ =~= spec_rows_bytes(kind, rows@, i as int));
            }
        }
        let count = rows.len();
        proof {
            lemma_rows_bytes_len(ComponentKind::U16, rows@, rows@.len() as int, n_comp as int);
            lemma_rows_bytes_len(ComponentKind::F32, rows@, rows@.len() as int, n_comp as int);
            assert(rows@.len() * (n_comp as int) * spec_component_size(kind) == (n_comp as int)
                * spec_component_size(kind) * rows@.len()) by (nonlinear_arith);
            assert(data_stream@.len() == (n_comp as int) * spec_component_size(kind)
                * rows@.len());
            assert(stride == (n_comp as int) * spec_component_size(kind));
        }
        let n_regions = self.working_data.len();
        proof {
            assert(old(self).working_data@.len() == n_regions);
        }
        let (buff_idx, buff_off): (usize, usize) = match self.find_region(stride, buffer_type) {
            Some(idx) => {
                let off = self.working_data[idx].data.len();
                let ghost reg_pre = self.working_data@[idx as int].data@;
                proof {
                    assert(spec_find_region(old(self).working_data@, stride as int, buffer_type)
                        == Some(idx as int));
                    assert(spec_find_region(
                        old(self).working_data@,
                        (n_comp as int) * spec_component_size(kind),
                        buffer_type,
                    ) == Some(idx as int));
                }
                append_bytes(&mut self.working_data, idx, data_stream);
                proof {
                    assert(self.working_data@[idx as int].data@.subrange(
                        off as int,
                        self.working_data@[idx as int].data@.len() as int,
                    ) =~= spec_rows_bytes(kind, rows@, rows@.len() as int));
                    assert forall|a: int, b: int|
                        0 <= a < b < self.working_data@.len() implies !((
                    #[trigger] self.working_data@[a]).stride == (
                    #[trigger] self.working_data@[b]).stride && self.working_data@[a].buffer_type
                        == self.working_data@[b].buffer_type) by {
                        assert(old(self).working_data@[a].stride == self.working_data@[a].stride
                            && old(self).working_data@[a].buffer_type == self.working_data@[
                        a].buffer_type);
                        assert(old(self).working_data@[b].stride == self.working_data@[b].stride
                            && old(self).working_data@[b].buffer_type == self.working_data@[
                        b].buffer_type);
                    }
                }
                (idx, off)
            },
            None => {
                let idx = self.working_data.len();
                self.working_data.push(
                    BufferRegion { stride, buffer_type, data: data_stream },
                );
                proof {
                    assert forall|a: int, b: int|
                        0 <= a < b < self.working_data@.len() implies !((
                    #[trigger] self.working_data@[a]).stride == (
                    #[trigger] self.working_data@[b]).stride && self.working_data@[a].buffer_type
                        == self.working_data@[b].buffer_type) by {
                        if b < idx {
                            assert(self.working_data@[a] == old(self).working_data@[a]);
                            assert(self.working_data@[b] == old(self).working_data@[b]);
                        } else {
                            assert(self.working_data@[a] == old(self).working_data@[a]);
                            assert(self.working_data@[b].stride == stride
                                && self.working_data@[b].buffer_type == buffer_type);
                        }
                    }
                    assert(self.working_data@[idx as int].data@.subrange(
                        0,
                        self.working_data@[idx as int].data@.len() as int,
                    ) =~= spec_rows_bytes(kind, rows@, rows@.len() as int));
                }
                (idx, 0)
            },
        };
        let acc_index = self.accessors.len();
        let name_empty = name.as_str().is_empty();
        let acc_name: Option<String> = if name_empty {
            None
        } else {
            Some(name)
        };
        self.accessors.push(
            Accessor {
                buffer_view: buff_idx,
                byte_offset: buff_off,
                count,
                kind,
                n_comp,
                min: mins,
                max: maxs,
                name: acc_name,
            },
        );
        proof {
            assert(self.accessors@.subrange(0, acc_index as int) =~= old(self).accessors@);
            assert(self.accessors@[acc_index as int].min@ =~= Seq::new(
                n_comp as nat,
                |c: int| spec_fold_min(kind, rows@, c, rows@.len() as int),
            ));
            assert(self.accessors@[acc_index as int].max@ =~= Seq::new(
                n_comp as nat,
                |c: int| spec_fold_max(kind, rows@, c, rows@.len() as int),
            ));
        }
        Some(acc_index)
    }
}

/// Index of the region with a given stride and category, if any (the list
/// is keyed uniquely, so at most one exists).
pub open spec fn spec_find_region(rs: Seq<BufferRegion>, stride: int, bt: BufferType) -> Option<
    int,
>
    decreases rs.len(),
{
    if rs.len() == 0 {
        None
    } else if rs[0].stride == stride && rs[0].buffer_type == bt {
        Some(0)
    } else {
        match spec_find_region(rs.skip(1), stride, bt) {
            Some(i) => Some(i + 1),
            None => None,
        }
    }
}

/// A found region index is in bounds.
proof fn lemma_find_region_bounds(rs: Seq<BufferRegion>, stride: int, bt: BufferType)
    ensures
        match spec_find_region(rs, stride, bt) {
            Some(i) => 0 <= i < rs.len(),
            None => true,
        },
    decreases rs.len(),
{
    if rs.len() != 0 && !(rs[0].stride == stride && rs[0].buffer_type == bt) {
        lemma_find_region_bounds(rs.skip(1), stride, bt);
    }
}

/// The first matching region index is the index with no match before it.
proof fn lemma_find_region_first(rs: Seq<BufferRegion>, stride: int, bt: BufferType, i: int)
    requires
        0 <= i < rs.len(),
        rs[i].stride == stride && rs[i].buffer_type == bt,
        forall|j: int| 0 <= j < i ==> !((#[trigger] rs[j]).stride == stride && rs[j].buffer_type == bt),
    ensures
        spec_find_region(rs, stride, bt) == Some(i),
    decreases rs.len(),
{
    if !(rs[0].stride == stride && rs[0].buffer_type == bt) {
        assert forall|j: int|
            0 <= j < i - 1 implies !((#[trigger] rs.skip(1)[j]).stride == stride && rs.skip(
            1,
        )[j].buffer_type == bt) by {
            assert(rs.skip(1)[j] == rs[j + 1]);
        }
        assert(rs.skip(1)[i - 1] == rs[i]);
        lemma_find_region_first(rs.skip(1), stride, bt, i - 1);
    }
}

/// When no region matches, the spec search finds none.
proof fn lemma_find_region_none(rs: Seq<BufferRegion>, stride: int, bt: BufferType)
    requires
        forall|j: int|
            0 <= j < rs.len() ==> !((#[trigger] rs[j]).stride == stride && rs[j].buffer_type
                == bt),
    ensures
        spec_find_region(rs, stride, bt) is None,
    decreases rs.len(),
{
    if rs.len() != 0 {
        assert forall|j: int|
            0 <= j < rs.skip(1).len() implies !((#[trigger] rs.skip(1)[j]).stride == stride
            && rs.skip(1)[j].buffer_type == bt) by {
            assert(rs.skip(1)[j] == rs[j + 1]);
        }
        lemma_find_region_none(rs.skip(1), stride, bt);
    }
}

/// Compares component values; see [`spec_ord_key`].
fn ord_key(kind: ComponentKind, v: u32) -> (r: u64)
    ensures
        r == spec_ord_key(kind, v),
{
    match kind {
        ComponentKind::U16 => v as u64,
        ComponentKind::F32 => if v >= 0x8000_0000 {
            (0xFFFF_FFFFu64 - (v as u64))
        } else {
            (v as u64) + 0x8000_0000
        },
    }
}

/// Appends bytes to one region, leaving every other region unchanged.
fn append_bytes(rs: &mut Vec<BufferRegion>, idx: usize, bytes: Vec<u8>)
    requires
        idx < old(rs)@.len(),
        old(rs)@[idx as int].data@.len() + bytes@.len() <= usize::MAX,
    ensures
        final(rs)@.len() == old(rs)@.len(),
        final(rs)@[idx as int].stride == old(rs)@[idx as int].stride,
        final(rs)@[idx as int].buffer_type == old(rs)@[idx as int].buffer_type,
        final(rs)@[idx as int].data@ == old(rs)@[idx as int].data@ + bytes@,
        forall|m: int|
            0 <= m < final(rs)@.len() && m != idx ==> #[trigger] final(rs)@[m] == old(rs)@[m],
{
    let region: &mut BufferRegion = &mut rs[idx];
    let ghost pre = *region;
    let mut k: usize = 0;
    proof {
        assert(region.data@ =~= pre.data@ + bytes@.subrange(0, 0));
    }
    while k < bytes.len()
        invariant
            k <= bytes@.len(),
            pre.data@.len() + bytes@.len() <= usize::MAX,
            region.stride == pre.stride,
            region.buffer_type == pre.buffer_type,
            region.data@ == pre.data@ + bytes@.subrange(0, k as int),
        decreases bytes@.len() - k,
    {
        region.data.push(bytes[k]);
        k = k + 1;
        proof {
            assert(region.data@ =~= pre.data@ + bytes@.subrange(0, k as int));
        }
    }
    proof {
        assert(region.data@ =~= pre.data@ + bytes@);
    }
}

/// Matches two buffer types.
fn matches_buffer_type(a: &BufferType, b: &BufferType) -> (r: bool)
    ensures
        r == (*a == *b),
{
    match (a, b) {
        (BufferType::Mesh, BufferType::Mesh) => true,
        (BufferType::Skin, BufferType::Skin) => true,
        (BufferType::Animation, BufferType::Animation) => true,
        _ => false,
    }
}

} // verus!

verus! {

/// Little-endian encoding of the first `n` single-component rows.
pub open spec fn spec_scalar_bytes(k: ComponentKind, values: Seq<u32>, n: int) -> Seq<u8>
    decreases n,
{
    if n <= 0 {
        Seq::empty()
    } else {
        spec_scalar_bytes(k, values, n - 1) + spec_comp_bytes(k, values[n - 1])
    }
}

/// Running minimum over the first `n` scalars.
pub open spec fn spec_scalar_fold_min(k: ComponentKind, values: Seq<u32>, n: int) -> u32
    decreases n,
{
    if n <= 0 {
        spec_min_seed(k)
    } else {
        spec_comp_min(k, spec_scalar_fold_min(k, values, n - 1), values[n - 1])
    }
}

/// Running maximum over the first `n` scalars.
pub open spec fn spec_scalar_fold_max(k: ComponentKind, values: Seq<u32>, n: int) -> u32
    decreases n,
{
    if n <= 0 {
        spec_max_seed(k)
    } else {
        spec_comp_max(k, spec_scalar_fold_max(k, values, n - 1), values[n - 1])
    }
}

/// Wrapped one-component rows encode, and fold, like the scalars they hold.
proof fn lemma_scalar_rows(k: ComponentKind, rows: Seq<Vec<u32>>, values: Seq<u32>, n: int)
    requires
        0 <= n <= rows.len(),
        rows.len() == values.len(),
        forall|i: int| 0 <= i < rows.len() ==> (#[trigger] rows[i])@ =~= seq![values[i]],
    ensures
        spec_rows_bytes(k, rows, n) == spec_scalar_bytes(k, values, n),
        spec_fold_min(k, rows, 0, n) == spec_scalar_fold_min(k, values, n),
        spec_fold_max(k, rows, 0, n) == spec_scalar_fold_max(k, values, n),
    decreases n,
{
    if n > 0 {
        lemma_scalar_rows(k, rows, values, n - 1);
        assert(rows[n - 1]@ =~= seq![values[n - 1]]);
        assert(spec_row_bytes(k, rows[n - 1]@) == spec_row_bytes(k, rows[n - 1]@.drop_last())
            + spec_comp_bytes(k, rows[n - 1]@.last()));
        assert(rows[n - 1]@.drop_last() =~= Seq::<u32>::empty());
        assert(spec_row_bytes(k, rows[n - 1]@.drop_last()) =~= Seq::<u8>::empty());
        assert(spec_row_bytes(k, rows[n - 1]@) =~= spec_comp_bytes(k, values[n - 1]));
    }
}

impl AccessorBuilder {
    /// Adds a scalar array by wrapping each value as a one-component row;
    /// see [`AccessorBuilder::add_array`].
    pub fn add_scalar(
        &mut self,
        name: String,
        kind: ComponentKind,
        values: Vec<u32>,
        buffer_type: BufferType,
    ) -> (r: Option<usize>)
        requires
            kind is U16 ==> forall|i: int| 0 <= i < values@.len() ==> (#[trigger] values@[i]) <= 0xFFFF,
            spec_component_size(kind) * values@.len() + 0x10000 <= usize::MAX,
            forall|i: int|
                0 <= i < old(self).working_data@.len() ==> (#[trigger] old(self).working_data@[
                i]).data@.len() + spec_component_size(kind) * values@.len() <= usize::MAX,
            spec_regions_unique(old(self).working_data@),
        ensures
            spec_regions_unique(final(self).working_data@),
            match r {
                Some(idx) => {
                    let stride = spec_component_size(kind);
                    let bytes = spec_scalar_bytes(kind, values@, values@.len() as int);
                    &&& values@.len() > 0
                    &&& idx == old(self).accessors@.len()
                    &&& final(self).accessors@.len() == old(self).accessors@.len() + 1
                    &&& final(self).accessors@.subrange(0, idx as int) == old(self).accessors@
                    &&& {
                        let acc = final(self).accessors@[idx as int];
                        &&& acc.count == values@.len()
                        &&& acc.kind == kind
                        &&& acc.n_comp == 1
                        &&& acc.min@ == seq![
                            spec_scalar_fold_min(kind, values@, values@.len() as int),
                        ]
                        &&& acc.max@ == seq![
                            spec_scalar_fold_max(kind, values@, values@.len() as int),
                        ]
                        &&& (name@.len() > 0 ==> (acc.name matches Some(n) && n@ == name@))
                        &&& (name@.len() == 0 ==> acc.name is None)
                        &&& acc.buffer_view < final(self).working_data@.len()
                        &&& {
                            let reg = final(self).working_data@[acc.buffer_view as int];
                            &&& reg.stride == stride
                            &&& reg.buffer_type == buffer_type
                            &&& reg.data@.subrange(
                                acc.byte_offset as int,
                                reg.data@.len() as int,
                            ) == bytes
                        }
                    }
                },
                None => values@.len() == 0 && *final(self) == *old(self),
            },
    {
        let mut rows: Vec<Vec<u32>> = Vec::new();
        let mut i: usize = 0;
        while i < values.len()
            invariant
                i <= values@.len(),
                rows@.len() == i,
                forall|j: int| 0 <= j < i ==> (#[trigger] rows@[j])@ =~= seq![values@[j]],
            decreases values@.len() - i,
        {
            let mut row: Vec<u32> = Vec::new();
            row.push(values[i]);
            proof {
                assert(row@ =~= seq![values@[i as int]]);
            }
            rows.push(row);
            i = i + 1;
        }
        proof {
            lemma_scalar_rows(kind, rows@, values@, values@.len() as int);
            assert((1int) * spec_component_size(kind) * rows@.len() == spec_component_size(kind)
                * values@.len()) by (nonlinear_arith)
                requires
                    rows@.len() == values@.len(),
            ;
        }
        let r = self.add_array(name, kind, 1, rows, buffer_type);
        proof {
            if r is Some {
                let idx = r->0;
                assert(final(self).accessors@[idx as int].min@ =~= seq![
                    spec_scalar_fold_min(kind, values@, values@.len() as int),
                ]);
                assert(final(self).accessors@[idx as int].max@ =~= seq![
                    spec_scalar_fold_max(kind, values@, values@.len() as int),
                ]);
            }
        }
        r
    }
}

/// Zero padding that rounds a region up to a multiple of four bytes.
pub open spec fn spec_pad4(data: Seq<u8>) -> Seq<u8> {
    data + Seq::new((crate::stream::spec_align4(data.len() as int) - data.len()) as nat, |i: int| 0u8)
}

/// The final buffer blob: every region's data, padded, in region order.
pub open spec fn spec_blob(rs: Seq<BufferRegion>, n: int) -> Seq<u8>
    decreases n,
{
    if n <= 0 {
        Seq::empty()
    } else {
        spec_blob(rs, n - 1) + spec_pad4(rs[n - 1].data@)
    }
}

/// The generated buffer: its total byte length and the name the binary
/// payload is stored under (none when the name is empty).
#[derive(Debug)]
pub struct GeneratedBuffer {
    pub byte_length: usize,
    pub uri: Option<String>,
}

impl AccessorBuilder {
    /// Flattens the builder: one buffer view per region, in insertion
    /// order, each padded to a multiple of four bytes and placed after the
    /// previous one in the final blob, so region contents keep their
    /// insertion order in the generated buffer.  Mesh regions whose stride
    /// is a multiple of four record it; skin and animation regions do not.
    pub fn generate(self, name: String) -> (r: (
        Vec<Accessor>,
        Vec<BufferView>,
        GeneratedBuffer,
        Vec<u8>,
    ))
        requires
            spec_blob(self.working_data@, self.working_data@.len() as int).len() <= usize::MAX,
        ensures
            r.0 == self.accessors,
            r.1@.len() == self.working_data@.len(),
            r.3@ == spec_blob(self.working_data@, self.working_data@.len() as int),
            forall|i: int|
                0 <= i < self.working_data@.len() ==> {
                    let v = #[trigger] r.1@[i];
                    &&& v.byte_offset == spec_blob(self.working_data@, i).len()
                    &&& v.byte_length == spec_pad4(self.working_data@[i].data@).len()
                    &&& v.byte_stride == (if self.working_data@[i].buffer_type is Mesh
                        && self.working_data@[i].stride % 4 == 0 {
                        Some(self.working_data@[i].stride)
                    } else {
                        None
                    })
                },
            r.2.byte_length == r.3@.len(),
            (name@.len() > 0 ==> (r.2.uri matches Some(u) && u@ == name@)),
            (name@.len() == 0 ==> r.2.uri is None),
    {
        let AccessorBuilder { working_data, accessors } = self;
        let mut views: Vec<BufferView> = Vec::new();
        let mut all_data: Vec<u8> = Vec::new();
        let mut i: usize = 0;
        proof {
            assert(spec_blob(working_data@, 0) =~= Seq::<u8>::empty());
            assert(all_data@ =~= spec_blob(working_data@, 0));
        }
        while i < working_data.len()
            invariant
                i <= working_data@.len(),
                views@.len() == i,
                spec_blob(working_data@, working_data@.len() as int).len() <= usize::MAX,
                all_data@ == spec_blob(working_data@, i as int),
                forall|j: int|
                    0 <= j < i ==> {
                        let v = #[trigger] views@[j];
                        &&& v.byte_offset == spec_blob(working_data@, j).len()
                        &&& v.byte_length == spec_pad4(working_data@[j].data@).len()
                        &&& v.byte_stride == (if working_data@[j].buffer_type is Mesh
                            && working_data@[j].stride % 4 == 0 {
                            Some(working_data@[j].stride)
                        } else {
                            None
                        })
                    },
            decreases working_data@.len() - i,
        {
            let region = &working_data[i];
            let data_offset = all_data.len();
            proof {
                lemma_blob_le(working_data@, i as int, working_data@.len() as int);
                lemma_blob_le(working_data@, i + 1, working_data@.len() as int);
                assert(spec_blob(working_data@, i + 1) == spec_blob(working_data@, i as int)
                    + spec_pad4(working_data@[i as int].data@));
            }
            let mut k: usize = 0;
            let ghost blob_pre = all_data@;
            while k < region.data.len()
                invariant
                    k <= region.data@.len(),
                    region == working_data@[i as int],
                    i < working_data@.len(),
                    blob_pre.len() + spec_pad4(region.data@).len() <= usize::MAX,
                    all_data@ == blob_pre + region.data@.subrange(0, k as int),
                decreases region.data@.len() - k,
            {
                all_data.push(region.data[k]);
                k = k + 1;
                proof {
                    assert(all_data@ =~= blob_pre + region.data@.subrange(0, k as int));
                }
            }
            let padded_size = crate::stream::align_to_multiple_of_four(region.data.len());
            let mut p: usize = region.data.len();
            proof {
                assert(region.data@.subrange(0, region.data@.len() as int) =~= region.data@);
            }
            while p < padded_size
                invariant
                    region.data@.len() <= p <= padded_size,
                    region == working_data@[i as int],
                    i < working_data@.len(),
                    padded_size == crate::stream::spec_align4(region.data@.len() as int),
                    blob_pre.len() + spec_pad4(region.data@).len() <= usize::MAX,
                    all_data@ == blob_pre + region.data@ + Seq::new(
                        (p - region.data@.len()) as nat,
                        |x: int| 0u8,
                    ),
                decreases padded_size - p,
            {
                all_data.push(0);
                p = p + 1;
                proof {
                    assert(all_data@ =~= blob_pre + region.data@ + Seq::new(
                        (p - region.data@.len()) as nat,
                        |x: int| 0u8,
                    ));
                }
            }
            let stride_opt: Option<usize> = if matches_buffer_type(
                &region.buffer_type,
                &BufferType::Mesh,
            ) && region.stride % 4 == 0 {
                Some(region.stride)
            } else {
                None
            };
            views.push(
                BufferView {
                    byte_length: padded_size,
                    byte_offset: data_offset,
                    byte_stride: stride_opt,
                },
            );
            i = i + 1;
            proof {
                assert(all_data@ =~= blob_pre + spec_pad4(region.data@));
                assert(all_data@ =~= spec_blob(working_data@, i as int));
            }
        }
        let buffer_len = all_data.len();
        let name_empty = name.as_str().is_empty();
        let uri: Option<String> = if name_empty {
            None
        } else {
            Some(name)
        };
        (accessors, views, GeneratedBuffer { byte_length: buffer_len, uri }, all_data)
    }
}

/// Blob prefixes only grow.
proof fn lemma_blob_le(rs: Seq<BufferRegion>, a: int, b: int)
    requires
        a <= b,
    ensures
        spec_blob(rs, a).len() <= spec_blob(rs, b).len(),
    decreases b - a,
{
    if a < b {
        lemma_blob_le(rs, a, b - 1);
    }
}

} // verus!
