//! The reported form of a snapshot: a list of named metrics, and the frame that carries it.
use crate::metrics::{MetricsManager, MetricsSnapshot, BUCKET_BOUNDARIES_US, BUCKET_COUNT};
use vstd::prelude::*;

verus! {

/// First byte of every frame.
pub const MAGIC: u8 = 0xBE;

/// Second byte of every frame.
pub const VERSION: u8 = 0x01;

/// How the value of a metric is to be read.
#[derive(Debug, Clone, Copy, PartialEq, Eq, Structural)]
pub enum MetricKind {
    Counter,
    Gauge,
    Histogram,
}

/// One bucket of a histogram. A bucket without an upper bound takes every observation.
#[derive(Debug, Clone, Copy, PartialEq, Eq, Structural)]
pub struct Bucket {
    pub le_us: Option<u64>,
    pub count: u64,
}

/// One named metric.
#[derive(Debug, Clone)]
pub struct Metric {
    pub name: String,
    pub kind: MetricKind,
    pub value: u64,
    pub buckets: Vec<Bucket>,
}

/// What a metric says.
#[verifier::ext_equal]
pub struct MetricView {
    pub name: Seq<char>,
    pub kind: MetricKind,
    pub value: u64,
    pub buckets: Seq<Bucket>,
}

impl View for Metric {
    type V = MetricView;

    open spec fn view(&self) -> MetricView {
        MetricView {
            name: self.name@,
            kind: self.kind,
            value: self.value,
            buckets: self.buckets@,
        }
    }
}

/// Everything that one report says.
#[derive(Debug, Clone)]
pub struct MetricPayload {
    pub tentacle_id: String,
    pub service: String,
    pub timestamp_ms: i64,
    pub metrics: Vec<Metric>,
}

impl MetricPayload {
    /// What each metric says, in order.
    pub open spec fn metric_views(&self) -> Seq<MetricView> {
        self.metrics@.map_values(|m: Metric| m@)
    }

    /// Whether this is the report of a snapshot.
    pub open spec fn reports(&self, snapshot: &MetricsSnapshot) -> bool {
        &&& self.tentacle_id == snapshot.tentacle_id
        &&& self.service == snapshot.service
        &&& self.timestamp_ms == snapshot.timestamp_ms
        &&& self.metric_views() == reported(snapshot)
    }
}

/// The upper bound of bucket `i`; the last one has none.
pub open spec fn upper_bound(i: int) -> Option<u64> {
    if 0 <= i < BUCKET_COUNT - 1 {
        Some(BUCKET_BOUNDARIES_US@[i])
    } else {
        None
    }
}

/// A metric that is a single number.
pub open spec fn plain_metric(name: Seq<char>, kind: MetricKind, value: u64) -> MetricView {
    MetricView { name, kind, value, buckets: Seq::empty() }
}

/// The metrics that a snapshot is reported as.
pub open spec fn reported(snapshot: &MetricsSnapshot) -> Seq<MetricView> {
    seq![
        plain_metric(
            "tentacle_active_connections"@,
            MetricKind::Gauge,
            snapshot.active_connections,
        ),
        plain_metric(
            "tentacle_connection_attempts_total"@,
            MetricKind::Counter,
            snapshot.connection_attempts_delta,
        ),
        plain_metric(
            "tentacle_connection_failures_total"@,
            MetricKind::Counter,
            snapshot.connection_failures_delta,
        ),
        plain_metric(
            "tentacle_bytes_transmitted_total"@,
            MetricKind::Counter,
            snapshot.bytes_transmitted_delta,
        ),
        MetricView {
            name: "tentacle_transport_latency_seconds"@,
            kind: MetricKind::Histogram,
            value: 0,
            buckets: Seq::new(
                BUCKET_COUNT as nat,
                |i: int|
                    Bucket {
                        le_us: upper_bound(i),
                        count: snapshot.transport_latency_seconds@[i],
                    },
            ),
        },
    ]
}

/// The four bytes of `n`, the highest first.
pub open spec fn big_endian_32(n: u32) -> Seq<u8> {
    seq![
        (n / 0x100_0000) as u8,
        (n / 0x1_0000 % 0x100) as u8,
        (n / 0x100 % 0x100) as u8,
        (n % 0x100) as u8,
    ]
}

/// The two bytes of `n`, the higher first.
pub open spec fn big_endian_16(n: u16) -> Seq<u8> {
    seq![(n / 0x100) as u8, (n % 0x100) as u8]
}

/// A checksum register after `n` bits were shifted out of it, the lowest first. The polynomial is
/// 0x1021, with its bits in reverse order.
pub open spec fn shifted(register: u16, n: nat) -> u16
    decreases n,
{
    if n == 0 {
        register
    } else {
        let before = shifted(register, (n - 1) as nat);
        if before & 1 == 1 {
            (before >> 1) ^ 0x8408
        } else {
            before >> 1
        }
    }
}

/// The checksum register after a sequence of bytes. It starts with all bits set.
pub open spec fn register_after(bytes: Seq<u8>) -> u16
    decreases bytes.len(),
{
    if bytes.len() == 0 {
        0xffff
    } else {
        shifted(register_after(bytes.drop_last()) ^ (bytes.last() as u16), 8)
    }
}

/// The checksum that CRC-16/IBM-SDLC, also known as X.25, assigns to a sequence of bytes: the
/// register after them, with all bits inverted.
pub open spec fn x25(bytes: Seq<u8>) -> u16 {
    register_after(bytes) ^ 0xffff
}

/// `Crc::checksum` of the `crc` crate with the algorithm `CRC_16_IBM_SDLC`: polynomial 0x1021,
/// bits taken in reverse order, all bits set at the start and inverted at the end.
#[verifier::external_body]
fn checksum(bytes: &Vec<u8>) -> (r: u16)
    ensures
        r == x25(bytes@),
{
    crc::Crc::<u16>::new(&crc::CRC_16_IBM_SDLC).checksum(bytes.as_slice())
}

/// A frame without its checksum: magic, version, length, payload.
pub open spec fn unchecked_frame(payload: Seq<u8>) -> Seq<u8> {
    seq![MAGIC, VERSION] + big_endian_32(payload.len() as u32) + payload
}

/// The frame that carries an encoded payload.
pub open spec fn framed(payload: Seq<u8>) -> Seq<u8> {
    unchecked_frame(payload) + big_endian_16(x25(unchecked_frame(payload)))
}

fn latency_buckets(counts: &[u64; BUCKET_COUNT]) -> (r: Vec<Bucket>)
    ensures
        r@ == Seq::new(
            BUCKET_COUNT as nat,
            |i: int| Bucket { le_us: upper_bound(i), count: counts@[i] },
        ),
{
    let mut r: Vec<Bucket> = Vec::with_capacity(BUCKET_COUNT);
    let mut i: usize = 0;
    while i < BUCKET_COUNT
        invariant
            i <= BUCKET_COUNT,
            r@ == Seq::new(
                i as nat,
                |j: int| Bucket { le_us: upper_bound(j), count: counts@[j] },
            ),
        decreases BUCKET_COUNT - i,
    {
        let le_us: Option<u64> = if i < BUCKET_COUNT - 1 {
            Some(BUCKET_BOUNDARIES_US[i])
        } else {
            None
        };
        r.push(Bucket { le_us, count: counts[i] });
        i += 1;
    }
    r
}

fn metric(name: &str, kind: MetricKind, value: u64, buckets: Vec<Bucket>) -> (r: Metric)
    ensures
        r@ == (MetricView { name: name@, kind, value, buckets: buckets@ }),
{
    Metric { name: name.to_owned(), kind, value, buckets }
}

impl MetricsManager {
    /// The report of a snapshot.
    pub fn payload(snapshot: &MetricsSnapshot) -> (r: MetricPayload)
        ensures
            r.reports(snapshot),
    {
        let mut metrics: Vec<Metric> = Vec::with_capacity(5);
        metrics.push(
            metric(
                "tentacle_active_connections",
                MetricKind::Gauge,
                snapshot.active_connections,
                Vec::new(),
            ),
        );
        metrics.push(
            metric(
                "tentacle_connection_attempts_total",
                MetricKind::Counter,
                snapshot.connection_attempts_delta,
                Vec::new(),
            ),
        );
        metrics.push(
            metric(
                "tentacle_connection_failures_total",
                MetricKind::Counter,
                snapshot.connection_failures_delta,
                Vec::new(),
            ),
        );
        metrics.push(
            metric(
                "tentacle_bytes_transmitted_total",
                MetricKind::Counter,
                snapshot.bytes_transmitted_delta,
                Vec::new(),
            ),
        );
        metrics.push(
            metric(
                "tentacle_transport_latency_seconds",
                MetricKind::Histogram,
                0,
                latency_buckets(&snapshot.transport_latency_seconds),
            ),
        );
        let r = MetricPayload {
            tentacle_id: snapshot.tentacle_id.clone(),
            service: snapshot.service.clone(),
            timestamp_ms: snapshot.timestamp_ms,
            metrics,
        };
        assert(r.metric_views() =~= reported(snapshot));
        r
    }

    /// Replaces the contents of `frame` by the frame that carries `payload_buf`, an encoded
    /// payload.
    pub fn frame_payload(payload_buf: &Vec<u8>, frame: &mut Vec<u8>)
        ensures
            final(frame)@ == framed(payload_buf@),
    {
        frame.clear();
        frame.push(MAGIC);
        frame.push(VERSION);
        let length: u32 = payload_buf.len() as u32;
        frame.push((length / 0x100_0000) as u8);
        frame.push((length / 0x1_0000 % 0x100) as u8);
        frame.push((length / 0x100 % 0x100) as u8);
        frame.push((length % 0x100) as u8);
        frame.extend_from_slice(payload_buf.as_slice());
        assert(frame@ =~= unchecked_frame(payload_buf@));
        let sum: u16 = checksum(frame);
        frame.push((sum / 0x100) as u8);
        frame.push((sum % 0x100) as u8);
        assert(frame@ =~= framed(payload_buf@));
    }

    /// Replaces the contents of `payload_buf` by the report of a snapshot, encoded by `encode`, and
    /// those of `frame` by the frame that carries it.
    pub fn encode_to_binary<E: Fn(MetricPayload) -> Vec<u8>>(
        snapshot: &MetricsSnapshot,
        encode: E,
        payload_buf: &mut Vec<u8>,
        frame: &mut Vec<u8>,
    )
        requires
            forall|payload: MetricPayload|
                payload.reports(snapshot) ==> call_requires(encode, (payload,)),
        ensures
            exists|payload: MetricPayload|
                {
                    &&& #[trigger] payload.reports(snapshot)
                    &&& call_ensures(encode, (payload,), *final(payload_buf))
                },
            final(frame)@ == framed(final(payload_buf)@),
    {
        let payload = Self::payload(snapshot);
        *payload_buf = encode(payload);
        Self::frame_payload(payload_buf, frame);
    }
}

/// A frame is eight bytes longer than its payload, the four bytes after magic and version give the
/// length of the payload, and the payload follows.
pub proof fn frame_layout(payload: Seq<u8>)
    requires
        payload.len() <= u32::MAX,
    ensures
        ({
            let f = framed(payload);
            &&& f.len() == payload.len() + 8
            &&& f[0] == MAGIC
            &&& f[1] == VERSION
            &&& f[2] * 0x100_0000 + f[3] * 0x1_0000 + f[4] * 0x100 + f[5] == payload.len()
            &&& f.subrange(6, 6 + payload.len() as int) == payload
            &&& f[f.len() - 2] * 0x100 + f[f.len() - 1] == x25(f.take(f.len() - 2))
        }),
{
    let f = framed(payload);
    assert(f.take(f.len() - 2) == unchecked_frame(payload));
    assert(f.subrange(6, 6 + payload.len() as int) == payload);
}

/// Different payloads have different frames.
pub proof fn frame_determines_payload(a: Seq<u8>, b: Seq<u8>)
    requires
        framed(a) == framed(b),
    ensures
        a == b,
{
    let f = framed(a);
    assert(f.len() == a.len() + 8);
    assert(framed(b).len() == b.len() + 8);
    assert(f.subrange(6, 6 + a.len() as int) == a);
    assert(framed(b).subrange(6, 6 + b.len() as int) == b);
}

/// Every frame starts with the bytes 0xBE and 0x01.
pub proof fn frames_are_marked(payload: Seq<u8>)
    ensures
        framed(payload)[0] == 0xBE,
        framed(payload)[1] == 0x01,
{
}

} // verus!
