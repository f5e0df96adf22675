//! The normalised metric model: every reading becomes a `Metric`.

use vstd::prelude::*;
use vstd::std_specs::convert::IntoSpec;

use crate::number_text::{format_number, number_text};
use crate::text::{i64_text, int_text};

verus! {

/// Main category of a metric (one dashboard card each).
#[derive(Debug, Clone, Copy, PartialEq, Eq, Hash, Structural)]
pub enum Category {
    Machine,
    Bios,
    Cpu,
    Memory,
    Gpu,
    Storage,
    Sensors,
    Power,
    Network,
    Os,
}

/// The lowercase identifier of a category.
pub open spec fn category_id(c: Category) -> Seq<char> {
    match c {
        Category::Machine => "machine"@,
        Category::Bios => "bios"@,
        Category::Cpu => "cpu"@,
        Category::Memory => "memory"@,
        Category::Gpu => "gpu"@,
        Category::Storage => "storage"@,
        Category::Sensors => "sensors"@,
        Category::Power => "power"@,
        Category::Network => "network"@,
        Category::Os => "os"@,
    }
}

/// The Portuguese (pt-BR) label of a category.
pub open spec fn category_label_pt(c: Category) -> Seq<char> {
    match c {
        Category::Machine => "Máquina"@,
        Category::Bios => "BIOS / Placa-mãe"@,
        Category::Cpu => "Processador"@,
        Category::Memory => "Memória RAM"@,
        Category::Gpu => "Placa de vídeo"@,
        Category::Storage => "Armazenamento"@,
        Category::Sensors => "Sensores"@,
        Category::Power => "Energia / Bateria"@,
        Category::Network => "Rede"@,
        Category::Os => "Sistema operacional"@,
    }
}

impl Category {
    pub fn as_str(&self) -> (s: &'static str)
        ensures
            s@ == category_id(*self),
    {
        match self {
            Category::Machine => "machine",
            Category::Bios => "bios",
            Category::Cpu => "cpu",
            Category::Memory => "memory",
            Category::Gpu => "gpu",
            Category::Storage => "storage",
            Category::Sensors => "sensors",
            Category::Power => "power",
            Category::Network => "network",
            Category::Os => "os",
        }
    }

    pub fn label_pt(&self) -> (s: &'static str)
        ensures
            s@ == category_label_pt(*self),
    {
        match self {
            Category::Machine => "Máquina",
            Category::Bios => "BIOS / Placa-mãe",
            Category::Cpu => "Processador",
            Category::Memory => "Memória RAM",
            Category::Gpu => "Placa de vídeo",
            Category::Storage => "Armazenamento",
            Category::Sensors => "Sensores",
            Category::Power => "Energia / Bateria",
            Category::Network => "Rede",
            Category::Os => "Sistema operacional",
        }
    }
}


/// Traffic-light status of a metric.
#[derive(Debug, Clone, Copy, PartialEq, Eq, Hash, Structural)]
pub enum MetricStatus {
    /// Within the normal thresholds.
    Healthy,
    /// Outside the ideal range but working.
    Attention,
    /// Serious problem; action recommended.
    Critical,
    /// Could not be collected (no privilege, tool missing, ...).
    Unavailable,
}

impl MetricStatus {
    /// Status of a reading that could not be taken; the message is reserved
    /// for later use and does not change the result.
    pub fn from_optional<S: Into<String>>(msg: S) -> (st: MetricStatus)
        ensures
            st == MetricStatus::Unavailable,
    {
        let _reserved: String = msg.into();
        MetricStatus::Unavailable
    }
}

/// The value of a metric.
///
/// `Number` holds a double-precision float by its IEEE-754 bit pattern
/// (what `f64::to_bits` gives); `Null` goes with `MetricStatus::Unavailable`.
#[derive(Debug, Clone)]
pub enum MetricValue {
    Text(String),
    Number(u64),
    Integer(i64),
    Bool(bool),
    Null,
}

/// Mathematical model of a `MetricValue`.
pub enum ValueModel {
    Text(Seq<char>),
    Number(u64),
    Integer(i64),
    Bool(bool),
    Null,
}

impl View for MetricValue {
    type V = ValueModel;

    open spec fn view(&self) -> ValueModel {
        match self {
            MetricValue::Text(s) => ValueModel::Text(s@),
            MetricValue::Number(b) => ValueModel::Number(*b),
            MetricValue::Integer(i) => ValueModel::Integer(*i),
            MetricValue::Bool(b) => ValueModel::Bool(*b),
            MetricValue::Null => ValueModel::Null,
        }
    }
}

/// The view of an optional string.
pub open spec fn opt_str_view(o: Option<String>) -> Option<Seq<char>> {
    match o {
        Some(s) => Some(s@),
        None => None,
    }
}

/// The view of an optional string slice.
pub open spec fn opt_slice_view(o: Option<&str>) -> Option<Seq<char>> {
    match o {
        Some(s) => Some(s@),
        None => None,
    }
}

/// One collected metric.
///
/// A metric built by `healthy` has a value other than `Null`; one built by
/// `unavailable` has the value `Null` and the status `Unavailable`.
/// `requires_admin` says whether the collector would need elevated
/// privileges; `source` names the real source (`sysinfo`, `wmi`, ...).
#[derive(Debug, Clone)]
pub struct Metric {
    pub category: Category,
    pub key: String,
    pub value: MetricValue,
    pub unit: Option<String>,
    pub status: MetricStatus,
    pub source: String,
    pub requires_admin: bool,
    pub error: Option<String>,
}

/// Mathematical model of a `Metric`.
pub struct MetricModel {
    pub category: Category,
    pub key: Seq<char>,
    pub value: ValueModel,
    pub unit: Option<Seq<char>>,
    pub status: MetricStatus,
    pub source: Seq<char>,
    pub requires_admin: bool,
    pub error: Option<Seq<char>>,
}

impl View for Metric {
    type V = MetricModel;

    open spec fn view(&self) -> MetricModel {
        MetricModel {
            category: self.category,
            key: self.key@,
            value: self.value@,
            unit: opt_str_view(self.unit),
            status: self.status,
            source: self.source@,
            requires_admin: self.requires_admin,
            error: opt_str_view(self.error),
        }
    }
}

/// The model of a metric as `Metric::healthy` builds it.
pub open spec fn healthy_model(
    category: Category,
    key: Seq<char>,
    value: ValueModel,
    unit: Option<Seq<char>>,
    source: Seq<char>,
) -> MetricModel {
    MetricModel {
        category,
        key,
        value,
        unit,
        status: MetricStatus::Healthy,
        source,
        requires_admin: false,
        error: None,
    }
}

/// The model of a metric as `Metric::unavailable` builds it.
pub open spec fn unavailable_model(
    category: Category,
    key: Seq<char>,
    source: Seq<char>,
    error: Seq<char>,
    requires_admin: bool,
) -> MetricModel {
    MetricModel {
        category,
        key,
        value: ValueModel::Null,
        unit: None,
        status: MetricStatus::Unavailable,
        source,
        requires_admin,
        error: Some(error),
    }
}

pub fn string_of(s: &str) -> (r: String)
    ensures
        r@ == s@,
{
    s.to_owned()
}

fn opt_string_of(o: Option<&str>) -> (r: Option<String>)
    ensures
        opt_str_view(r) == opt_slice_view(o),
{
    match o {
        Some(s) => Some(string_of(s)),
        None => None,
    }
}

/// `From::from` of a type into itself (core's blanket impl): the contract
/// claims it hands its argument back unchanged, as its documentation says.
pub assume_specification<X>[ <X as std::convert::From<X>>::from ](x: X) -> (r: X)
    ensures
        r == x,
;

/// The models of a sequence of metrics.
pub open spec fn models(ms: Seq<Metric>) -> Seq<MetricModel> {
    ms.map_values(|m: Metric| m@)
}

/// Appends `m` to `out`.
pub fn push_metric(out: &mut Vec<Metric>, m: Metric)
    ensures
        models(final(out)@) == models(old(out)@).push(m@),
{
    let ghost m_model = m@;
    out.push(m);
    proof {
        assert(models(out@) =~= models(old(out)@).push(m_model));
    }
}

impl Metric {
    /// A `Healthy` metric with the given value.
    pub fn healthy_of(
        category: Category,
        key: String,
        value: MetricValue,
        unit: Option<&str>,
        source: &str,
    ) -> (m: Metric)
        ensures
            m@ == healthy_model(category, key@, value@, opt_slice_view(unit), source@),
            m.value == value,
    {
        Metric {
            category,
            key,
            value,
            unit: opt_string_of(unit),
            status: MetricStatus::Healthy,
            source: string_of(source),
            requires_admin: false,
            error: None,
        }
    }

    /// A metric in the `Healthy` status.
    pub fn healthy<T: Into<MetricValue>>(
        category: Category,
        key: &str,
        value: T,
        unit: Option<&str>,
        source: &str,
    ) -> (m: Metric)
        ensures
            T::obeys_into_spec() ==> m@ == healthy_model(
                category,
                key@,
                value.into_spec()@,
                opt_slice_view(unit),
                source@,
            ),
            m@.key == key@,
            m@.unit == opt_slice_view(unit),
            m@.source == source@,
            m.category == category,
            m.status == MetricStatus::Healthy,
            !m.requires_admin,
            m.error is None,
            call_ensures(T::into, (value,), m.value),
    {
        let v = value.into();
        Metric::healthy_of(category, string_of(key), v, unit, source)
    }

    /// A metric that could not be collected.
    pub fn unavailable(
        category: Category,
        key: &str,
        source: &str,
        error: &str,
        requires_admin: bool,
    ) -> (m: Metric)
        ensures
            m@ == unavailable_model(category, key@, source@, error@, requires_admin),
    {
        Metric {
            category,
            key: string_of(key),
            value: MetricValue::Null,
            unit: None,
            status: MetricStatus::Unavailable,
            source: string_of(source),
            requires_admin,
            error: Some(string_of(error)),
        }
    }

    /// The same metric with another status.
    pub fn with_status(self, status: MetricStatus) -> (m: Metric)
        ensures
            m@ == (MetricModel { status, ..self@ }),
    {
        let mut m = self;
        m.status = status;
        m
    }
}

impl From<String> for MetricValue {
    fn from(s: String) -> (v: MetricValue) {
        MetricValue::Text(s)
    }
}

impl vstd::std_specs::convert::FromSpecImpl<String> for MetricValue {
    open spec fn obeys_from_spec() -> bool {
        true
    }

    open spec fn from_spec(s: String) -> MetricValue {
        MetricValue::Text(s)
    }
}

impl From<i64> for MetricValue {
    fn from(i: i64) -> (v: MetricValue) {
        MetricValue::Integer(i)
    }
}

impl vstd::std_specs::convert::FromSpecImpl<i64> for MetricValue {
    open spec fn obeys_from_spec() -> bool {
        true
    }

    open spec fn from_spec(i: i64) -> MetricValue {
        MetricValue::Integer(i)
    }
}

impl<'a> From<&'a str> for MetricValue {
    fn from(s: &'a str) -> (v: MetricValue)
        ensures
            v@ == ValueModel::Text(s@),
    {
        MetricValue::Text(string_of(s))
    }
}

/// A spec value cannot build a `String` from a slice, so this conversion
/// is specified on `from` itself rather than through `from_spec`.
impl<'a> vstd::std_specs::convert::FromSpecImpl<&'a str> for MetricValue {
    open spec fn obeys_from_spec() -> bool {
        false
    }

    open spec fn from_spec(s: &'a str) -> MetricValue {
        choose|v: MetricValue| v@ == ValueModel::Text(s@)
    }
}

impl From<u32> for MetricValue {
    fn from(i: u32) -> (v: MetricValue) {
        MetricValue::Integer(i as i64)
    }
}

impl vstd::std_specs::convert::FromSpecImpl<u32> for MetricValue {
    open spec fn obeys_from_spec() -> bool {
        true
    }

    open spec fn from_spec(i: u32) -> MetricValue {
        MetricValue::Integer(i as i64)
    }
}

impl From<u64> for MetricValue {
    /// Values above `i64::MAX` wrap around, as an `as` cast does.
    fn from(i: u64) -> (v: MetricValue) {
        MetricValue::Integer(i as i64)
    }
}

impl vstd::std_specs::convert::FromSpecImpl<u64> for MetricValue {
    open spec fn obeys_from_spec() -> bool {
        true
    }

    open spec fn from_spec(i: u64) -> MetricValue {
        MetricValue::Integer(i as i64)
    }
}

impl From<usize> for MetricValue {
    fn from(i: usize) -> (v: MetricValue) {
        MetricValue::Integer(i as i64)
    }
}

impl vstd::std_specs::convert::FromSpecImpl<usize> for MetricValue {
    open spec fn obeys_from_spec() -> bool {
        true
    }

    open spec fn from_spec(i: usize) -> MetricValue {
        MetricValue::Integer(i as i64)
    }
}

impl From<bool> for MetricValue {
    fn from(b: bool) -> (v: MetricValue) {
        MetricValue::Bool(b)
    }
}

impl vstd::std_specs::convert::FromSpecImpl<bool> for MetricValue {
    open spec fn obeys_from_spec() -> bool {
        true
    }

    open spec fn from_spec(b: bool) -> MetricValue {
        MetricValue::Bool(b)
    }
}

/// The text shown for a value (pt-BR).
pub open spec fn value_text(v: ValueModel) -> Seq<char> {
    match v {
        ValueModel::Text(s) => s,
        ValueModel::Number(b) => number_text(b),
        ValueModel::Integer(i) => int_text(i as int),
        ValueModel::Bool(b) => if b {
            "sim"@
        } else {
            "não"@
        },
        ValueModel::Null => "indisponível"@,
    }
}

impl Metric {
    /// The value as text for the user (pt-BR).
    pub fn display_value(&self) -> (r: String)
        ensures
            r@ == value_text(self.value@),
    {
        match &self.value {
            MetricValue::Text(s) => s.clone(),
            MetricValue::Number(b) => format_number(*b),
            MetricValue::Integer(i) => i64_text(*i),
            MetricValue::Bool(b) => if *b {
                string_of("sim")
            } else {
                string_of("não")
            },
            MetricValue::Null => string_of("indisponível"),
        }
    }
}

/// A metric has no value exactly when it could not be collected.
pub open spec fn value_matches_status(m: MetricModel) -> bool {
    (m.value is Null) <==> (m.status == MetricStatus::Unavailable)
}

/// Every metric of `ms` has no value exactly when it could not be collected.
pub open spec fn all_values_match_status(ms: Seq<MetricModel>) -> bool {
    forall|i: int| 0 <= i < ms.len() ==> value_matches_status(#[trigger] ms[i])
}

pub proof fn lemma_all_match_concat(a: Seq<MetricModel>, b: Seq<MetricModel>)
    requires
        all_values_match_status(a),
        all_values_match_status(b),
    ensures
        all_values_match_status(a + b),
{
    assert forall|i: int| 0 <= i < (a + b).len() implies value_matches_status(#[trigger] (a + b)[i]) by {
        if i < a.len() {
            assert((a + b)[i] == a[i]);
        } else {
            assert((a + b)[i] == b[i - a.len()]);
        }
    }
}

/// `unavailable` builds a metric without value; `healthy`, given a value,
/// builds one with it.
pub proof fn law_constructors_match_status(
    category: Category,
    key: Seq<char>,
    value: ValueModel,
    unit: Option<Seq<char>>,
    source: Seq<char>,
    error: Seq<char>,
    requires_admin: bool,
)
    ensures
        value_matches_status(unavailable_model(category, key, source, error, requires_admin)),
        !(value is Null) ==> value_matches_status(healthy_model(category, key, value, unit, source)),
{
}

} // verus!
