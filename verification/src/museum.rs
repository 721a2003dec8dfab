//! Museum records as the model takes them: numeric codes for the features
//! of a museum, and the revenue range that a predicted class stands for.
use vstd::prelude::*;

verus! {

/// The code of a museum type: 1 to 5 for the five types that have one, 0
/// for any other name.
pub open spec fn type_code_of(name: Seq<char>) -> i8 {
    if name == "HISTORIC PRESERVATION"@ {
        1
    } else if name == "GENERAL MUSEUM"@ {
        2
    } else if name == "ART MUSEUM"@ {
        3
    } else if name == "HISTORY MUSEUM"@ {
        4
    } else if name == "ARBORETUM, BOTANICAL GARDEN, OR NATURE CENTER"@ {
        5
    } else {
        0
    }
}

/// The code of the museum type that `name` spells.
pub fn museum_type_code(name: &str) -> (code: i8)
    ensures
        code == type_code_of(name@),
{
    let name = name.to_owned();
    if name == "HISTORIC PRESERVATION".to_owned() {
        1
    } else if name == "GENERAL MUSEUM".to_owned() {
        2
    } else if name == "ART MUSEUM".to_owned() {
        3
    } else if name == "HISTORY MUSEUM".to_owned() {
        4
    } else if name == "ARBORETUM, BOTANICAL GARDEN, OR NATURE CENTER".to_owned() {
        5
    } else {
        0
    }
}

/// What is kept of one museum: four feature codes and the revenue, which
/// is carried as the bit pattern of its IEEE-754 double.
#[derive(Debug, Clone, Copy, PartialEq, Eq)]
pub struct Row {
    pub museum_type: i8,
    pub locale: i8,
    pub state_code: i8,
    pub region_code: i8,
    pub revenue: u64,
}

impl Row {
    /// A row for a museum of type `a` with locale code `b`, state code
    /// `c`, region code `d` and revenue `e`.
    pub fn new(a: String, b: i8, c: i8, d: i8, e: u64) -> (row: Self)
        ensures
            row.museum_type == type_code_of(a@),
            row.locale == b,
            row.state_code == c,
            row.region_code == d,
            row.revenue == e,
    {
        Self {
            museum_type: museum_type_code(a.as_str()),
            locale: b,
            state_code: c,
            region_code: d,
            revenue: e,
        }
    }

    /// The row of a record of which every field is present, and `None`
    /// where one is missing.
    pub fn from_record(
        museum_type: Option<String>,
        locale: Option<i8>,
        state_code: Option<i8>,
        region_code: Option<i8>,
        revenue: Option<u64>,
    ) -> (row: Option<Self>)
        ensures
            match row {
                Some(row) => {
                    &&& museum_type matches Some(name) && row.museum_type == type_code_of(name@)
                    &&& locale == Some(row.locale)
                    &&& state_code == Some(row.state_code)
                    &&& region_code == Some(row.region_code)
                    &&& revenue == Some(row.revenue)
                },
                None => museum_type is None || locale is None || state_code is None
                    || region_code is None || revenue is None,
            },
    {
        match (museum_type, locale, state_code, region_code, revenue) {
            (Some(a), Some(b), Some(c), Some(d), Some(e)) => Some(Row::new(a, b, c, d, e)),
            _ => None,
        }
    }

    /// The four feature codes, in the order type, locale, state, region.
    pub open spec fn features(self) -> Seq<i8> {
        seq![self.museum_type, self.locale, self.state_code, self.region_code]
    }
}

/// The feature codes of `rows` laid out row by row, four to a row.
pub open spec fn layout_of(rows: Seq<Row>) -> Seq<i8> {
    Seq::new(4 * rows.len(), |k: int| rows[k / 4].features()[k % 4])
}

/// The feature matrix of `rows` in row-major order: four codes for each
/// row, in the order of the rows.
pub fn feature_layout(rows: &Vec<Row>) -> (layout: Vec<i8>)
    ensures
        layout@ == layout_of(rows@),
{
    let mut layout: Vec<i8> = Vec::new();
    let mut i: usize = 0;
    while i < rows.len()
        invariant
            i <= rows.len(),
            layout@ == layout_of(rows@.take(i as int)),
        decreases rows.len() - i,
    {
        layout.push(rows[i].museum_type);
        layout.push(rows[i].locale);
        layout.push(rows[i].state_code);
        layout.push(rows[i].region_code);
        i += 1;
    }
    layout
}

/// The feature row of a museum that is to be classified: the code of its
/// type, then its locale, state and region codes.
pub fn data_to_predict(mtype: String, m_locale: i8, m_state: i8, m_region: i8) -> (row: [i8; 4])
    ensures
        row@ == seq![type_code_of(mtype@), m_locale, m_state, m_region],
{
    let row = [museum_type_code(mtype.as_str()), m_locale, m_state, m_region];
    row
}

/// The revenue range that a class stands for, by positions among the
/// fences that bound the classes.
#[derive(Debug, Clone, Copy, PartialEq, Eq, Structural)]
pub enum RevenueRange {
    /// Less than the fence at this position.
    Below(usize),
    /// From the fence at the first position up to the fence at the second.
    Between(usize, usize),
    /// The fence at this position or more.
    Above(usize),
}

/// The range of class `cat_index` among `fence_count` fences: class 0 lies
/// below the first fence, the class after the last fence lies above it,
/// and every other class lies between the fence before it and its own.
pub fn revenue_range(cat_index: usize, fence_count: usize) -> (range: RevenueRange)
    requires
        fence_count > 0,
        cat_index <= fence_count,
    ensures
        cat_index == 0 ==> range == RevenueRange::Below(0),
        0 < cat_index < fence_count ==> range == RevenueRange::Between(
            (cat_index - 1) as usize,
            cat_index,
        ),
        cat_index == fence_count ==> range == RevenueRange::Above((cat_index - 1) as usize),
{
    if cat_index == 0 {
        RevenueRange::Below(cat_index)
    } else if cat_index < fence_count {
        RevenueRange::Between(cat_index - 1, cat_index)
    } else {
        RevenueRange::Above(cat_index - 1)
    }
}

} // verus!
