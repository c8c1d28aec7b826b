//! The span record and its accessors.

use super::tags::{tag_del, tag_get, tag_set, tags_map, Tags};
use vstd::prelude::*;

verus! {

/// One observed unit of work.
///
/// A zero identifier or timestamp and an empty string mean "unset". A metric
/// is held as the IEEE-754 bit pattern of its double-precision value.
#[derive(Debug)]
pub struct Span {
    pub service: String,
    pub name: String,
    pub resource: String,
    pub trace_id: u64,
    pub span_id: u64,
    pub parent_id: u64,
    pub start: i64,
    pub duration: i64,
    pub error: i32,
    pub meta: Tags<String>,
    pub metrics: Tags<u64>,
    pub span_type: String,
}

/// What a span record holds, as mathematical values.
pub struct SpanView {
    pub service: Seq<char>,
    pub name: Seq<char>,
    pub resource: Seq<char>,
    pub trace_id: u64,
    pub span_id: u64,
    pub parent_id: u64,
    pub start: i64,
    pub duration: i64,
    pub error: i32,
    pub meta: Seq<(Seq<char>, Seq<char>)>,
    pub metrics: Seq<(Seq<char>, u64)>,
    pub span_type: Seq<char>,
}

impl SpanView {
    /// The record that a new span starts as: every field unset.
    pub open spec fn zero() -> SpanView {
        SpanView {
            service: Seq::empty(),
            name: Seq::empty(),
            resource: Seq::empty(),
            trace_id: 0,
            span_id: 0,
            parent_id: 0,
            start: 0,
            duration: 0,
            error: 0,
            meta: Seq::empty(),
            metrics: Seq::empty(),
            span_type: Seq::empty(),
        }
    }
}

impl View for Span {
    type V = SpanView;

    open spec fn view(&self) -> SpanView {
        SpanView {
            service: self.service@,
            name: self.name@,
            resource: self.resource@,
            trace_id: self.trace_id,
            span_id: self.span_id,
            parent_id: self.parent_id,
            start: self.start,
            duration: self.duration,
            error: self.error,
            meta: self.meta@,
            metrics: self.metrics@,
            span_type: self.span_type@,
        }
    }
}

impl Span {
    /// A record with every field unset.
    pub fn new() -> (s: Span)
        ensures
            s@ == SpanView::zero(),
    {
        Span {
            service: String::new(),
            name: String::new(),
            resource: String::new(),
            trace_id: 0,
            span_id: 0,
            parent_id: 0,
            start: 0,
            duration: 0,
            error: 0,
            meta: Tags::new(),
            metrics: Tags::new(),
            span_type: String::new(),
        }
    }

    pub fn get_name(&self) -> (r: &String)
        ensures
            r@ == self@.name,
    {
        &self.name
    }

    pub fn set_name(&mut self, name: String)
        ensures
            final(self)@ == (SpanView { name: name@, ..old(self)@ }),
    {
        self.name = name;
    }

    pub fn get_span_type(&self) -> (r: &String)
        ensures
            r@ == self@.span_type,
    {
        &self.span_type
    }

    pub fn set_span_type(&mut self, span_type: String)
        ensures
            final(self)@ == (SpanView { span_type: span_type@, ..old(self)@ }),
    {
        self.span_type = span_type;
    }

    pub fn get_service(&self) -> (r: &String)
        ensures
            r@ == self@.service,
    {
        &self.service
    }

    pub fn set_service(&mut self, service: String)
        ensures
            final(self)@ == (SpanView { service: service@, ..old(self)@ }),
    {
        self.service = service;
    }

    pub fn get_resource(&self) -> (r: &String)
        ensures
            r@ == self@.resource,
    {
        &self.resource
    }

    pub fn set_resource(&mut self, resource: String)
        ensures
            final(self)@ == (SpanView { resource: resource@, ..old(self)@ }),
    {
        self.resource = resource;
    }

    pub fn get_trace_id(&self) -> (r: u64)
        ensures
            r == self@.trace_id,
    {
        self.trace_id
    }

    pub fn set_trace_id(&mut self, trace_id: u64)
        ensures
            final(self)@ == (SpanView { trace_id, ..old(self)@ }),
    {
        self.trace_id = trace_id;
    }

    pub fn get_parent_id(&self) -> (r: u64)
        ensures
            r == self@.parent_id,
    {
        self.parent_id
    }

    pub fn set_parent_id(&mut self, parent_id: u64)
        ensures
            final(self)@ == (SpanView { parent_id, ..old(self)@ }),
    {
        self.parent_id = parent_id;
    }

    pub fn get_span_id(&self) -> (r: u64)
        ensures
            r == self@.span_id,
    {
        self.span_id
    }

    pub fn set_span_id(&mut self, span_id: u64)
        ensures
            final(self)@ == (SpanView { span_id, ..old(self)@ }),
    {
        self.span_id = span_id;
    }

    pub fn get_start(&self) -> (r: i64)
        ensures
            r == self@.start,
    {
        self.start
    }

    pub fn set_start(&mut self, start: i64)
        ensures
            final(self)@ == (SpanView { start, ..old(self)@ }),
    {
        self.start = start;
    }

    pub fn get_duration(&self) -> (r: i64)
        ensures
            r == self@.duration,
    {
        self.duration
    }

    pub fn set_duration(&mut self, duration: i64)
        ensures
            final(self)@ == (SpanView { duration, ..old(self)@ }),
    {
        self.duration = duration;
    }

    pub fn get_error(&self) -> (r: i32)
        ensures
            r == self@.error,
    {
        self.error
    }

    pub fn set_error(&mut self, error: i32)
        ensures
            final(self)@ == (SpanView { error, ..old(self)@ }),
    {
        self.error = error;
    }

    /// The tag stored under `key`, if there is one.
    pub fn get_meta(&self, key: &String) -> (r: Option<&String>)
        ensures
            match r {
                Some(v) => tag_get(self@.meta, key@) == Some(v@),
                None => tag_get(self@.meta, key@) is None,
            },
    {
        self.meta.get(key)
    }

    /// Stores the tag `value` under `key`, replacing an earlier one.
    pub fn set_meta(&mut self, key: String, value: String)
        ensures
            final(self)@ == (SpanView { meta: tag_set(old(self)@.meta, key@, value@), ..old(self)@ }),
            tags_map(final(self)@.meta) == tags_map(old(self)@.meta).insert(key@, value@),
    {
        self.meta.insert(key, value);
    }

    /// Drops the tag under `key`; without one, nothing changes.
    pub fn del_meta(&mut self, key: String)
        ensures
            final(self)@ == (SpanView { meta: tag_del(old(self)@.meta, key@), ..old(self)@ }),
            tags_map(final(self)@.meta) == tags_map(old(self)@.meta).remove(key@),
    {
        self.meta.remove(&key);
    }

    /// The bit pattern of the metric stored under `key`, if there is one.
    pub fn get_metrics(&self, key: &String) -> (r: Option<&u64>)
        ensures
            match r {
                Some(v) => tag_get(self@.metrics, key@) == Some(*v),
                None => tag_get(self@.metrics, key@) is None,
            },
    {
        self.metrics.get(key)
    }

    /// Stores the metric with bit pattern `value` under `key`, replacing an earlier one.
    pub fn set_metrics(&mut self, key: String, value: u64)
        ensures
            final(self)@ == (SpanView {
                metrics: tag_set(old(self)@.metrics, key@, value),
                ..old(self)@
            }),
            tags_map(final(self)@.metrics) == tags_map(old(self)@.metrics).insert(key@, value),
    {
        self.metrics.insert(key, value);
    }

    /// Drops the metric under `key`; without one, nothing changes.
    pub fn del_metrics(&mut self, key: String)
        ensures
            final(self)@ == (SpanView { metrics: tag_del(old(self)@.metrics, key@), ..old(self)@ }),
            tags_map(final(self)@.metrics) == tags_map(old(self)@.metrics).remove(key@),
    {
        self.metrics.remove(&key);
    }
}

} // verus!
