//! Radar products and the frames that show them.

pub mod cells;
pub mod cluster;
pub mod fetch;
pub mod hrrr;
pub mod interp;
pub mod ring;
pub mod track;

use vstd::prelude::*;
#[allow(unused_imports)]
use crate::ieee::{
    above32, at_least32, bottom, bottom_of, ge32, gt32, is_bottom, is_top, lemma_bottom_of,
    lemma_top_of, magnitude, top, top_of, unsigned,
};
#[allow(unused_imports)]
use crate::lattice::{lemma_index_apart, lemma_index_in_range};

verus! {

/// 0.90: a return whose correlation is below this is not precipitation.
pub const DEFAULT_MIN_CORRELATION: u32 = 0x3F66_6666;

/// A radar moment that can be shown.
#[derive(Debug, Clone, Copy, PartialEq, Eq, Structural)]
pub enum RadarProduct {
    Reflectivity,
    Velocity,
    CorrelationCoefficient,
    DifferentialReflectivity,
    SpectrumWidth,
    EchoTop,
    VerticallyIntegratedLiquid,
}

/// How a column of elevation cuts becomes one value.
#[derive(Debug, Clone, Copy, PartialEq, Eq, Structural)]
pub enum ColumnReduction {
    Max,
    LowestCut,
}

impl RadarProduct {
    /// The name of a product.
    pub open spec fn name(self) -> Seq<char> {
        match self {
            RadarProduct::Reflectivity => "reflectivity"@,
            RadarProduct::Velocity => "velocity"@,
            RadarProduct::CorrelationCoefficient => "corr coeff"@,
            RadarProduct::DifferentialReflectivity => "diff refl"@,
            RadarProduct::SpectrumWidth => "spectrum width"@,
            RadarProduct::EchoTop => "echo top"@,
            RadarProduct::VerticallyIntegratedLiquid => "VIL"@,
        }
    }

    pub fn label(self) -> (r: &'static str)
        ensures
            r@ == self.name(),
            self is Reflectivity ==> r@ == "reflectivity"@,
            self is Velocity ==> r@ == "velocity"@,
            self is CorrelationCoefficient ==> r@ == "corr coeff"@,
            self is DifferentialReflectivity ==> r@ == "diff refl"@,
            self is SpectrumWidth ==> r@ == "spectrum width"@,
            self is EchoTop ==> r@ == "echo top"@,
            self is VerticallyIntegratedLiquid ==> r@ == "VIL"@,
    {
        match self {
            RadarProduct::Reflectivity => "reflectivity",
            RadarProduct::Velocity => "velocity",
            RadarProduct::CorrelationCoefficient => "corr coeff",
            RadarProduct::DifferentialReflectivity => "diff refl",
            RadarProduct::SpectrumWidth => "spectrum width",
            RadarProduct::EchoTop => "echo top",
            RadarProduct::VerticallyIntegratedLiquid => "VIL",
        }
    }

    /// The unit of a product, empty where it has none.
    pub open spec fn unit(self) -> Seq<char> {
        match self {
            RadarProduct::Reflectivity => "dBZ"@,
            RadarProduct::Velocity => "m/s"@,
            RadarProduct::CorrelationCoefficient => ""@,
            RadarProduct::DifferentialReflectivity => "dB"@,
            RadarProduct::SpectrumWidth => "m/s"@,
            RadarProduct::EchoTop => "km"@,
            RadarProduct::VerticallyIntegratedLiquid => "kg/m2"@,
        }
    }

    pub fn units(self) -> (r: &'static str)
        ensures
            r@ == self.unit(),
            self is Reflectivity ==> r@ == "dBZ"@,
            self is Velocity || self is SpectrumWidth ==> r@ == "m/s"@,
            self is CorrelationCoefficient ==> r@ == ""@,
            self is DifferentialReflectivity ==> r@ == "dB"@,
            self is EchoTop ==> r@ == "km"@,
            self is VerticallyIntegratedLiquid ==> r@ == "kg/m2"@,
    {
        match self {
            RadarProduct::Reflectivity => "dBZ",
            RadarProduct::Velocity => "m/s",
            RadarProduct::CorrelationCoefficient => "",
            RadarProduct::DifferentialReflectivity => "dB",
            RadarProduct::SpectrumWidth => "m/s",
            RadarProduct::EchoTop => "km",
            RadarProduct::VerticallyIntegratedLiquid => "kg/m2",
        }
    }

    /// Whether a reading lies in the diagnostic tail of its product: 35 dBZ, 20 m/s either
    /// way, a correlation below that of precipitation, a differential reflectivity outside -1
    /// to 3 dB, a width of 6 m/s, a top of 9 km, 25 kg/m2 of liquid.
    pub open spec fn notable(self, value: u32) -> bool {
        match self {
            RadarProduct::Reflectivity => ge32(value, 0x420C_0000),
            RadarProduct::Velocity => ge32(magnitude(value), 0x41A0_0000),
            RadarProduct::CorrelationCoefficient => gt32(DEFAULT_MIN_CORRELATION, value),
            RadarProduct::DifferentialReflectivity => !(ge32(value, 0xBF80_0000) && gt32(
                0x4040_0000,
                value,
            )),
            RadarProduct::SpectrumWidth => ge32(value, 0x40C0_0000),
            RadarProduct::EchoTop => ge32(value, 0x4110_0000),
            RadarProduct::VerticallyIntegratedLiquid => ge32(value, 0x41C8_0000),
        }
    }

    /// Whether a reading, the bit pattern of a single, earns the right to cover the base
    /// layer.
    pub fn is_notable(self, value: u32) -> (r: bool)
        ensures
            r == self.notable(value),
            self is Reflectivity ==> r == ge32(value, 0x420C_0000),
            self is Velocity ==> r == ge32(magnitude(value), 0x41A0_0000),
            self is CorrelationCoefficient ==> r == gt32(0x3F66_6666, value),
            self is DifferentialReflectivity ==> r == !(ge32(value, 0xBF80_0000) && gt32(
                0x4040_0000,
                value,
            )),
            self is SpectrumWidth ==> r == ge32(value, 0x40C0_0000),
            self is EchoTop ==> r == ge32(value, 0x4110_0000),
            self is VerticallyIntegratedLiquid ==> r == ge32(value, 0x41C8_0000),
    {
        match self {
            RadarProduct::Reflectivity => at_least32(value, 0x420C_0000),
            RadarProduct::Velocity => at_least32(unsigned(value), 0x41A0_0000),
            RadarProduct::CorrelationCoefficient => above32(DEFAULT_MIN_CORRELATION, value),
            RadarProduct::DifferentialReflectivity => !(at_least32(value, 0xBF80_0000) && above32(
                0x4040_0000,
                value,
            )),
            RadarProduct::SpectrumWidth => at_least32(value, 0x40C0_0000),
            RadarProduct::EchoTop => at_least32(value, 0x4110_0000),
            RadarProduct::VerticallyIntegratedLiquid => at_least32(value, 0x41C8_0000),
        }
    }

    /// Debris, rotation and drop shape are near-ground phenomena and are read from the lowest
    /// cut; the rest take the greatest value of the column.
    pub open spec fn reduced_by(self) -> ColumnReduction {
        match self {
            RadarProduct::CorrelationCoefficient
            | RadarProduct::Velocity
            | RadarProduct::DifferentialReflectivity => ColumnReduction::LowestCut,
            _ => ColumnReduction::Max,
        }
    }

    pub fn reduction(self) -> (r: ColumnReduction)
        ensures
            r == self.reduced_by(),
            r is LowestCut <==> self is CorrelationCoefficient || self is Velocity || self
                is DifferentialReflectivity,
    {
        match self {
            RadarProduct::Reflectivity
            | RadarProduct::SpectrumWidth
            | RadarProduct::EchoTop
            | RadarProduct::VerticallyIntegratedLiquid => ColumnReduction::Max,
            RadarProduct::CorrelationCoefficient
            | RadarProduct::Velocity
            | RadarProduct::DifferentialReflectivity => ColumnReduction::LowestCut,
        }
    }
}

/// Velocity is signed, and rotation toward the radar is as notable as rotation away from it.
pub proof fn law_velocity_is_notable_either_way(value: u32)
    requires
        value < 0x8000_0000,
    ensures
        RadarProduct::Velocity.notable(value) == RadarProduct::Velocity.notable(
            (value + 0x8000_0000) as u32,
        ),
{
}

/// A picture of readings, each the bit pattern of a single. `height` counts pixels, two to a
/// row of the terminal.
#[derive(Debug)]
pub struct DbzGrid {
    pub width: usize,
    pub height: usize,
    pub cells: Vec<Option<u32>>,
}

/// How many readings there are.
pub open spec fn populated(cells: Seq<Option<u32>>) -> nat
    decreases cells.len(),
{
    if cells.len() == 0 {
        0
    } else {
        populated(cells.drop_last()) + (if cells.last() is Some {
            1nat
        } else {
            0
        })
    }
}

impl DbzGrid {
    /// There is a cell for every position.
    pub open spec fn wf(self) -> bool {
        self.cells@.len() == self.width * self.height
    }

    /// Whether a position lies on the picture.
    pub open spec fn holds(self, x: int, y: int) -> bool {
        0 <= x < self.width && 0 <= y < self.height
    }

    /// The reading at a position, none beyond the edges.
    pub open spec fn at(self, x: int, y: int) -> Option<u32> {
        if self.holds(x, y) {
            self.cells@[y * self.width + x]
        } else {
            None
        }
    }

    pub fn new(width: usize, height: usize) -> (r: DbzGrid)
        requires
            width * height <= usize::MAX,
        ensures
            r.wf(),
            r.width == width,
            r.height == height,
            forall|x: int, y: int| (#[trigger] r.at(x, y)) is None,
            populated(r.cells@) == 0,
    {
        let n: usize = width * height;
        let mut cells: Vec<Option<u32>> = Vec::new();
        let mut i: usize = 0;
        while i < n
            invariant
                i <= n,
                cells@.len() == i,
                forall|k: int| 0 <= k < i ==> (#[trigger] cells@[k]) is None,
                populated(cells@) == 0,
            decreases n - i,
        {
            let ghost was = cells@;
            cells.push(None);
            assert(cells@.drop_last() =~= was);
            i += 1;
        }
        let r = DbzGrid { width, height, cells };
        assert forall|x: int, y: int| (#[trigger] r.at(x, y)) is None by {
            if r.holds(x, y) {
                lemma_index_in_range(x, y, width as int, height as int);
            }
        }
        r
    }

    pub fn get(&self, x: usize, y: usize) -> (r: Option<u32>)
        requires
            self.wf(),
        ensures
            r == self.at(x as int, y as int),
            x < self.width && y < self.height ==> r == self.cells@[y * self.width + x],
            x >= self.width || y >= self.height ==> r is None,
    {
        if x >= self.width || y >= self.height {
            return None;
        }
        let total: usize = self.cells.len();
        proof {
            lemma_index_in_range(x as int, y as int, self.width as int, self.height as int);
            assert(y * self.width + x < total);
        }
        self.cells[y * self.width + x]
    }

    /// Sets the reading at a position, if it lies on the picture.
    pub fn set(&mut self, x: usize, y: usize, value: Option<u32>)
        requires
            old(self).wf(),
        ensures
            final(self).wf(),
            final(self).width == old(self).width,
            final(self).height == old(self).height,
            forall|a: int, b: int| #[trigger]
                final(self).at(a, b) == if a == x && b == y && old(self).holds(a, b) {
                    value
                } else {
                    old(self).at(a, b)
                },
    {
        if x < self.width && y < self.height {
            let total: usize = self.cells.len();
            let ghost w = self.width as int;
            let ghost h = self.height as int;
            proof {
                lemma_index_in_range(x as int, y as int, w, h);
                assert(y * w + x < total);
            }
            let index: usize = y * self.width + x;
            self.cells[index] = value;
            assert forall|a: int, b: int| #[trigger]
                self.at(a, b) == if a == x && b == y && old(self).holds(a, b) {
                    value
                } else {
                    old(self).at(a, b)
                } by {
                if self.holds(a, b) {
                    lemma_index_in_range(a, b, w, h);
                    if b * w + a == index {
                        lemma_index_apart(a, b, x as int, y as int, w);
                    }
                }
            }
        }
    }

    /// How many readings there are.
    pub fn populated_cells(&self) -> (r: usize)
        ensures
            r == populated(self.cells@),
    {
        let mut n: usize = 0;
        let mut i: usize = 0;
        while i < self.cells.len()
            invariant
                i <= self.cells@.len(),
                n <= i,
                n == populated(self.cells@.take(i as int)),
            decreases self.cells@.len() - i,
        {
            assert(self.cells@.take(i + 1).drop_last() =~= self.cells@.take(i as int));
            if self.cells[i].is_some() {
                n += 1;
            }
            i += 1;
        }
        assert(self.cells@.take(i as int) =~= self.cells@);
        n
    }

    /// The least and the greatest reading.
    pub fn value_range(&self) -> (r: Option<(u32, u32)>)
        ensures
            r matches Some(range) ==> bottom_of(self.cells@) == Some(range.0) && top_of(self.cells@)
                == Some(range.1),
            r matches Some(range) ==> is_bottom(self.cells@, Some(range.0)) && is_top(
                self.cells@,
                Some(range.1),
            ),
            r is None <==> forall|i: int|
                0 <= i < self.cells@.len() ==> (#[trigger] self.cells@[i]) is None,
    {
        let mut low: Option<u32> = None;
        let mut high: Option<u32> = None;
        let mut i: usize = 0;
        while i < self.cells.len()
            invariant
                i <= self.cells@.len(),
                low == bottom_of(self.cells@.take(i as int)),
                high == top_of(self.cells@.take(i as int)),
            decreases self.cells@.len() - i,
        {
            let v: Option<u32> = self.cells[i];
            proof {
                assert(self.cells@.take(i + 1).drop_last() =~= self.cells@.take(i as int));
                assert(self.cells@.take(i + 1).last() == v);
            }
            low = bottom(low, v);
            high = top(high, v);
            i += 1;
        }
        assert(self.cells@.take(i as int) =~= self.cells@);
        proof {
            lemma_bottom_of(self.cells@);
            lemma_top_of(self.cells@);
        }
        match (low, high) {
            (Some(a), Some(b)) => Some((a, b)),
            _ => None,
        }
    }
}

/// A stronger reading never loses its right to cover the base layer: more reflectivity, a faster
/// wind either way, a greater width, a higher top, more liquid, and less correlation.
pub proof fn law_stronger_readings_stay_notable(less: u32, more: u32)
    requires
        gt32(more, less),
    ensures
        RadarProduct::Reflectivity.notable(less) ==> RadarProduct::Reflectivity.notable(more),
        RadarProduct::SpectrumWidth.notable(less) ==> RadarProduct::SpectrumWidth.notable(more),
        RadarProduct::EchoTop.notable(less) ==> RadarProduct::EchoTop.notable(more),
        RadarProduct::VerticallyIntegratedLiquid.notable(less)
            ==> RadarProduct::VerticallyIntegratedLiquid.notable(more),
        less < 0x8000_0000 && RadarProduct::Velocity.notable(less)
            ==> RadarProduct::Velocity.notable(more),
        RadarProduct::CorrelationCoefficient.notable(more)
            ==> RadarProduct::CorrelationCoefficient.notable(less),
{
}

/// The readings of two lists, one after the other, are counted together, each once.
pub proof fn law_readings_are_counted_once(a: Seq<Option<u32>>, b: Seq<Option<u32>>, v: u32)
    ensures
        populated(a + b) == populated(a) + populated(b),
        populated(seq![Some(v)]) == 1,
        populated(seq![None::<u32>]) == 0,
    decreases b.len(),
{
    reveal_with_fuel(populated, 2);
    assert(seq![Some(v)].drop_last() =~= Seq::<Option<u32>>::empty());
    assert(seq![None::<u32>].drop_last() =~= Seq::<Option<u32>>::empty());
    if b.len() == 0 {
        assert(a + b =~= a);
    } else {
        law_readings_are_counted_once(a, b.drop_last(), v);
        assert((a + b).drop_last() =~= a + b.drop_last());
        assert((a + b).last() == b.last());
    }
}

/// Each product has its own name.
pub proof fn law_products_have_their_own_names(p: RadarProduct, q: RadarProduct)
    ensures
        p.name() == q.name() ==> p == q,
{
    reveal_strlit("reflectivity");
    reveal_strlit("velocity");
    reveal_strlit("corr coeff");
    reveal_strlit("diff refl");
    reveal_strlit("spectrum width");
    reveal_strlit("echo top");
    reveal_strlit("VIL");
    assert("reflectivity"@[0] == 'r' && "velocity"@[0] == 'v' && "corr coeff"@[0] == 'c'
        && "diff refl"@[0] == 'd' && "spectrum width"@[0] == 's' && "echo top"@[0] == 'e'
        && "VIL"@[0] == 'V');
}

} // verus!
