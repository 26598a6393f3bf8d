use vstd::prelude::*;

use crate::ids::{ConnectorId, MetricId, MqttId, SensorId};

verus! {

/// Physical unit of a predefined metric.
#[derive(Clone, Copy, Debug, PartialEq, Eq, Structural)]
pub enum ValueUnit {
    Ampere,
    Bit,
    Candela,
    Celsius,
    Decibel,
    Farad,
    Hertz,
    Joule,
    Kilogram,
    Latitude,
    Longitude,
    Meter,
    MetersPerSecond,
    MetersPerSquareSecond,
    Mole,
    Newton,
    Ohm,
    Pascal,
    Percent,
    Radian,
    Second,
    SquareMetre,
    Volt,
    Watt,
}

/// Value type of a custom metric.
#[derive(Clone, Copy, Debug, PartialEq, Eq, Structural)]
pub enum ValueType {
    Boolean,
    Double,
    Integer,
    String,
}

/// A metric in full.
#[derive(Clone, Debug, PartialEq)]
pub enum Metric {
    Predefined { name: String, metric_id: MetricId, value_unit: ValueUnit },
    Custom {
        name: String,
        metric_id: MetricId,
        value_annotation: String,
        value_type: ValueType,
    },
}

pub open spec fn metric_id_of(m: Metric) -> MetricId {
    match m {
        Metric::Predefined { metric_id, .. } => metric_id,
        Metric::Custom { metric_id, .. } => metric_id,
    }
}

pub open spec fn metric_name_of(m: Metric) -> String {
    match m {
        Metric::Predefined { name, .. } => name,
        Metric::Custom { name, .. } => name,
    }
}

/// `m` with its name replaced.
pub open spec fn renamed(m: Metric, name: String) -> Metric {
    match m {
        Metric::Predefined { metric_id, value_unit, .. } => Metric::Predefined {
            name,
            metric_id,
            value_unit,
        },
        Metric::Custom { metric_id, value_annotation, value_type, .. } => Metric::Custom {
            name,
            metric_id,
            value_annotation,
            value_type,
        },
    }
}

impl Metric {
    /// A predefined metric not yet created (nil id).
    pub fn predefined(name: String, value_unit: ValueUnit) -> (r: Metric)
        ensures
            r == (Metric::Predefined { name, metric_id: MqttId { value: 0 }, value_unit }),
    {
        Metric::Predefined { name, metric_id: MqttId::nil(), value_unit }
    }

    /// A custom metric not yet created (nil id).
    pub fn custom(name: String, value_type: ValueType, value_annotation: String) -> (r: Metric)
        ensures
            r == (Metric::Custom {
                name,
                metric_id: MqttId { value: 0 },
                value_annotation,
                value_type,
            }),
    {
        Metric::Custom { name, value_type, value_annotation, metric_id: MqttId::nil() }
    }

    pub fn name(&self) -> (r: &String)
        ensures
            *r == metric_name_of(*self),
    {
        match self {
            Metric::Predefined { name, .. } => name,
            Metric::Custom { name, .. } => name,
        }
    }

    pub fn metric_id(&self) -> (r: MetricId)
        ensures
            r == metric_id_of(*self),
    {
        match self {
            Metric::Predefined { metric_id, .. } => *metric_id,
            Metric::Custom { metric_id, .. } => *metric_id,
        }
    }

    pub fn rename(&mut self, new_name: String)
        ensures
            *final(self) == renamed(*old(self), new_name),
    {
        match self {
            Metric::Predefined { name, .. } => {
                *name = new_name;
            },
            Metric::Custom { name, .. } => {
                *name = new_name;
            },
        }
    }

    /// A copy of this metric.
    pub fn copy(&self) -> (r: Metric)
        ensures
            r == *self,
    {
        match self {
            Metric::Predefined { name, metric_id, value_unit } => Metric::Predefined {
                name: name.clone(),
                metric_id: *metric_id,
                value_unit: *value_unit,
            },
            Metric::Custom { name, metric_id, value_annotation, value_type } => Metric::Custom {
                name: name.clone(),
                metric_id: *metric_id,
                value_annotation: value_annotation.clone(),
                value_type: *value_type,
            },
        }
    }
}

impl Default for Metric {
    /// A placeholder: a custom integer metric named "Unknown", unit "Unit",
    /// with the nil id.
    fn default() -> (r: Metric)
        ensures
            r matches Metric::Custom { name, metric_id, value_annotation, value_type } && name@
                == "Unknown"@ && metric_id == (MqttId { value: 0 }) && value_annotation@ == "Unit"@
                && value_type == ValueType::Integer,
    {
        Metric::Custom {
            name: String::from_str("Unknown"),
            metric_id: MqttId::nil(),
            value_annotation: String::from_str("Unit"),
            value_type: ValueType::Integer,
        }
    }
}

/// A metric as a sensor list names it, before its description is loaded.
#[derive(Clone, Debug, PartialEq)]
pub struct LinkedMetric {
    pub link: String,
    pub metric_id: MetricId,
}

impl LinkedMetric {
    pub fn copy(&self) -> (r: LinkedMetric)
        ensures
            r == *self,
    {
        LinkedMetric { link: self.link.clone(), metric_id: self.metric_id }
    }
}

/// A sensor with its metrics, linked (`LinkedMetric`) or in full (`Metric`).
#[derive(Clone, Debug, PartialEq)]
pub struct Sensor<T> {
    pub name: String,
    pub sensor_id: SensorId,
    pub metrics: Vec<T>,
    pub connector_id: ConnectorId,
}

/// What a sensor holds, with its metrics as a sequence.
pub struct SensorModel<T> {
    pub name: String,
    pub sensor_id: SensorId,
    pub metrics: Seq<T>,
    pub connector_id: ConnectorId,
}

impl<T> View for Sensor<T> {
    type V = SensorModel<T>;

    open spec fn view(&self) -> SensorModel<T> {
        SensorModel {
            name: self.name,
            sensor_id: self.sensor_id,
            metrics: self.metrics@,
            connector_id: self.connector_id,
        }
    }
}

pub fn copy_linked_metrics(v: &Vec<LinkedMetric>) -> (r: Vec<LinkedMetric>)
    ensures
        r@ == v@,
{
    let mut r: Vec<LinkedMetric> = Vec::new();
    let mut i: usize = 0;
    while i < v.len()
        invariant
            0 <= i <= v@.len(),
            r@ == v@.take(i as int),
        decreases v@.len() - i,
    {
        r.push(v[i].copy());
        i += 1;
        proof {
            assert(r@ =~= v@.take(i as int));
        }
    }
    proof {
        assert(v@.take(i as int) =~= v@);
    }
    r
}

pub fn copy_metrics(v: &Vec<Metric>) -> (r: Vec<Metric>)
    ensures
        r@ == v@,
{
    let mut r: Vec<Metric> = Vec::new();
    let mut i: usize = 0;
    while i < v.len()
        invariant
            0 <= i <= v@.len(),
            r@ == v@.take(i as int),
        decreases v@.len() - i,
    {
        r.push(v[i].copy());
        i += 1;
        proof {
            assert(r@ =~= v@.take(i as int));
        }
    }
    proof {
        assert(v@.take(i as int) =~= v@);
    }
    r
}

impl Sensor<LinkedMetric> {
    pub fn copy_linked(&self) -> (r: Sensor<LinkedMetric>)
        ensures
            r@ == self@,
    {
        Sensor {
            name: self.name.clone(),
            sensor_id: self.sensor_id,
            metrics: copy_linked_metrics(&self.metrics),
            connector_id: self.connector_id,
        }
    }
}

impl Sensor<Metric> {
    pub fn copy_full(&self) -> (r: Sensor<Metric>)
        ensures
            r@ == self@,
    {
        Sensor {
            name: self.name.clone(),
            sensor_id: self.sensor_id,
            metrics: copy_metrics(&self.metrics),
            connector_id: self.connector_id,
        }
    }
}

} // verus!
