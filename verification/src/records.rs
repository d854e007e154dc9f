//! The typed records of the live-streaming request and the standalone
//! event, with their mathematical models and shape invariants.
use vstd::prelude::*;
use crate::num::Price;
use crate::duration::Duration;
use crate::timestamp::{Timestamp, ts_wf};
use crate::uid::Uuid;
use crate::shard::ShardUrl;

verus! {

/// Tariff available to every viewer; the wire key of `identifier` is
/// `id`.
#[derive(Debug, PartialEq)]
pub struct PublicTariff {
    pub identifier: i32,
    pub price: Price,
    pub duration: Duration,
    pub description: String,
}

pub struct PublicTariffV {
    pub identifier: i32,
    pub price: Price,
    pub duration: Duration,
    pub description: Seq<char>,
}

impl DeepView for PublicTariff {
    type V = PublicTariffV;

    open spec fn deep_view(&self) -> PublicTariffV {
        PublicTariffV {
            identifier: self.identifier,
            price: self.price,
            duration: self.duration,
            description: self.description@,
        }
    }
}

/// Tariff of a private stream; its price travels under the wire key
/// `client_price`.
#[derive(Debug, PartialEq)]
pub struct PrivateTariff {
    pub price: Price,
    pub duration: Duration,
    pub description: String,
}

pub struct PrivateTariffV {
    pub price: Price,
    pub duration: Duration,
    pub description: Seq<char>,
}

impl DeepView for PrivateTariff {
    type V = PrivateTariffV;

    open spec fn deep_view(&self) -> PrivateTariffV {
        PrivateTariffV {
            price: self.price,
            duration: self.duration,
            description: self.description@,
        }
    }
}

/// The stream under request; the private tariff is present only when
/// the wire carries it.
#[derive(Debug, PartialEq)]
pub struct Stream {
    pub user_id: Uuid,
    pub is_private: bool,
    pub settings: i32,
    pub shard_url: ShardUrl,
    pub public_tariff: PublicTariff,
    pub private_tariff: Option<PrivateTariff>,
}

pub struct StreamV {
    pub user_id: Seq<u8>,
    pub is_private: bool,
    pub settings: i32,
    pub shard_url: Seq<char>,
    pub public_tariff: PublicTariffV,
    pub private_tariff: Option<PrivateTariffV>,
}

impl DeepView for Stream {
    type V = StreamV;

    open spec fn deep_view(&self) -> StreamV {
        StreamV {
            user_id: self.user_id.deep_view(),
            is_private: self.is_private,
            settings: self.settings,
            shard_url: self.shard_url.deep_view(),
            public_tariff: self.public_tariff.deep_view(),
            private_tariff: self.private_tariff.deep_view(),
        }
    }
}

/// An attached gift; the wire key of `identifier` is `id`.
#[derive(Debug, PartialEq)]
pub struct Gift {
    pub identifier: i32,
    pub price: Price,
    pub description: String,
}

pub struct GiftV {
    pub identifier: i32,
    pub price: Price,
    pub description: Seq<char>,
}

impl DeepView for Gift {
    type V = GiftV;

    open spec fn deep_view(&self) -> GiftV {
        GiftV {
            identifier: self.identifier,
            price: self.price,
            description: self.description@,
        }
    }
}

/// Debug metadata of the request.
#[derive(Debug, Clone, Copy, PartialEq, Eq, Structural)]
pub struct DebugInfo {
    pub duration: Duration,
    pub at: Timestamp,
}

impl DeepView for DebugInfo {
    type V = DebugInfo;

    open spec fn deep_view(&self) -> DebugInfo {
        *self
    }
}

/// The closed request tag: only `success` and `failure` exist on the
/// wire.
#[derive(Debug, Clone, Copy, PartialEq, Eq, Structural)]
pub enum RequestType {
    Success,
    Failure,
}

impl DeepView for RequestType {
    type V = RequestType;

    open spec fn deep_view(&self) -> RequestType {
        *self
    }
}

/// The model of the gift list.
pub open spec fn gifts_view(gs: Vec<Gift>) -> Seq<GiftV> {
    Seq::new(gs@.len() as nat, |i: int| gs@[i].deep_view())
}

/// The whole request; `req_type` travels under the wire key `type`.
#[derive(Debug, PartialEq)]
pub struct Request {
    pub req_type: RequestType,
    pub stream: Stream,
    pub gifts: Vec<Gift>,
    pub debug: DebugInfo,
}

pub struct RequestV {
    pub req_type: RequestType,
    pub stream: StreamV,
    pub gifts: Seq<GiftV>,
    pub debug: DebugInfo,
}

impl DeepView for Request {
    type V = RequestV;

    open spec fn deep_view(&self) -> RequestV {
        RequestV {
            req_type: self.req_type,
            stream: self.stream.deep_view(),
            gifts: gifts_view(self.gifts),
            debug: self.debug,
        }
    }
}

/// A standalone event; its date carries the `Date: ` prefix on the
/// wire only.
#[derive(Debug, PartialEq)]
pub struct Event {
    pub name: String,
    pub date: String,
}

pub struct EventV {
    pub name: Seq<char>,
    pub date: Seq<char>,
}

impl DeepView for Event {
    type V = EventV;

    open spec fn deep_view(&self) -> EventV {
        EventV { name: self.name@, date: self.date@ }
    }
}

/// Shape conformance of a stream: a full identifier and a normalized
/// URL.
pub open spec fn stream_v_wf(s: StreamV) -> bool {
    &&& s.user_id.len() == 16
    &&& crate::shard::url_normal(s.shard_url) == Some(s.shard_url)
}

/// Shape conformance of a request.
pub open spec fn request_v_wf(r: RequestV) -> bool {
    &&& stream_v_wf(r.stream)
    &&& ts_wf(r.debug.at)
}

} // verus!
