//! The access-unit data model and its framing converters.

use crate::annex_b::{annex_b_nalus, annex_b_split};
use crate::bufext::{
    bytes_len, bytes_mut_extend, bytes_mut_freeze, bytes_mut_new, bytes_mut_view, bytes_slice,
    bytes_view,
};
use crate::lp::{annex_b_of, be32, lp_records, start_code};
use vstd::prelude::*;

verus! {

/// Which codec an access unit carries, and with it which framing convention
/// its `data` buffer uses: `AAC` audio (no NAL framing), `AVC` video in
/// Annex-B framing, `AVCC` video in length-prefixed framing.
#[derive(Clone, Debug, PartialEq, Eq, Structural)]
pub enum AuKind {
    AAC,
    AVC,
    AVCC,
}

/// One fragmented-MP4 fragment: a plain carrier with no logic of its own.
#[derive(Clone, Debug)]
pub struct Fmp4 {
    /// Initialization segment, present only on a track's first fragment.
    pub init: Option<bytes::Bytes>,
    /// Whether the fragment starts at a random-access point.
    pub key: bool,
    /// The fragment's payload.
    pub data: bytes::Bytes,
    /// The fragment's duration in timescale units.
    pub duration: u32,
}

/// One encoded access unit: its codec kind, optional payload and parameter
/// sets, optional timestamps in milliseconds, and descriptive metadata.
/// Every field is independently optional; the type enforces no cross-field
/// constraint.
#[derive(Clone, Debug)]
pub struct AuPayload {
    /// The codec kind; decides the framing convention of `data`.
    pub kind: AuKind,
    /// The raw encoded payload, framed as `kind` implies.
    pub data: Option<bytes::Bytes>,
    /// Sequence parameter set, carried out of band from `data`.
    pub sps: Option<bytes::Bytes>,
    /// Picture parameter set, carried out of band from `data`.
    pub pps: Option<bytes::Bytes>,
    /// Decode timestamp in milliseconds; absent means not yet assigned.
    pub dts: Option<i64>,
    /// Presentation timestamp in milliseconds; absent means not yet assigned.
    pub pts: Option<i64>,
    /// Opaque routing/source tag.
    pub path: Option<u64>,
    /// Whether this access unit is a random-access point.
    pub key: bool,
    /// Audio codec identifier, meaningful only for audio.
    pub audio_codec_id: Option<u8>,
    /// Audio bitrate in kilobits per second.
    pub audio_bitrate_kbps: Option<u32>,
    /// Audio sample rate in hertz.
    pub audio_sample_rate: Option<u32>,
    /// Number of audio channels.
    pub audio_channels: Option<u8>,
    /// Caller-assigned sequence counter.
    pub seq: u64,
    /// Which elementary stream this access unit belongs to.
    pub track_id: usize,
    /// Video width in pixels.
    pub width: Option<u16>,
    /// Video height in pixels.
    pub height: Option<u16>,
}

/// The sequence a payload's `data` buffer holds: its bytes when present,
/// the empty sequence when absent.
pub open spec fn data_view(p: AuPayload) -> Seq<u8> {
    match p.data {
        Some(d) => bytes_view(d),
        None => Seq::empty(),
    }
}

/// Law: a payload without a `data` buffer yields nothing — an empty NAL-unit
/// list from both extraction functions and an empty buffer from the rewrite.
pub proof fn lemma_absent_data_yields_nothing(p: AuPayload)
    requires
        p.data is None,
    ensures
        lp_records(data_view(p)) == Seq::<Seq<u8>>::empty(),
        annex_b_nalus(data_view(p)) == Seq::<Seq<u8>>::empty(),
        annex_b_of(lp_records(data_view(p))) == Seq::<u8>::empty(),
{
    assert(lp_records(Seq::<u8>::empty()) == Seq::<Seq<u8>>::empty());
    assert(annex_b_nalus(Seq::<u8>::empty()) == Seq::<Seq<u8>>::empty());
    assert(annex_b_of(Seq::<Seq<u8>>::empty()) == Seq::<u8>::empty());
}

impl AuPayload {
    /// A payload with `AAC` kind, every optional field absent, `key` false
    /// and the counters at zero.
    pub fn new() -> (r: Self)
        ensures
            r.kind == AuKind::AAC,
            r.data is None,
            r.sps is None,
            r.pps is None,
            r.dts is None,
            r.pts is None,
            r.path is None,
            r.key == false,
            r.audio_codec_id is None,
            r.audio_bitrate_kbps is None,
            r.audio_sample_rate is None,
            r.audio_channels is None,
            r.seq == 0,
            r.track_id == 0,
            r.width is None,
            r.height is None,
    {
        Self {
            kind: AuKind::AAC,
            data: None,
            sps: None,
            dts: None,
            pps: None,
            pts: None,
            path: None,
            key: false,
            audio_codec_id: None,
            audio_channels: None,
            audio_sample_rate: None,
            audio_bitrate_kbps: None,
            width: None,
            height: None,
            seq: 0,
            track_id: 0,
        }
    }

    /// The presentation timestamp in milliseconds, zero when unassigned.
    /// Reading it leaves the stored optional timestamp untouched.
    pub fn pts(&self) -> (r: i64)
        ensures
            r == match self.pts {
                Some(v) => v,
                None => 0,
            },
    {
        match self.pts {
            Some(v) => v,
            None => 0,
        }
    }

    /// The decode timestamp in milliseconds, zero when unassigned.
    pub fn dts(&self) -> (r: i64)
        ensures
            r == match self.dts {
                Some(v) => v,
                None => 0,
            },
    {
        match self.dts {
            Some(v) => v,
            None => 0,
        }
    }

    /// The NAL units of an Annex-B framed `data` buffer, one borrowed slice
    /// per unit in stream order: the partition of the buffer at start-code
    /// boundaries.  An absent buffer, or one without a start code, yields an
    /// empty list.
    pub fn nalus_from_annex_b<'a>(&'a self) -> (r: Vec<&'a [u8]>)
        ensures
            r@.map_values(|s: &[u8]| s@) == annex_b_nalus(data_view(*self)),
    {
        match &self.data {
            None => {
                let r: Vec<&[u8]> = Vec::new();
                proof {
                    assert(r@.map_values(|s: &[u8]| s@) =~= Seq::<Seq<u8>>::empty());
                    assert(annex_b_nalus(Seq::<u8>::empty()) == Seq::<Seq<u8>>::empty());
                }
                r
            },
            Some(data) => {
                let whole = bytes_slice(data, 0, bytes_len(data));
                proof {
                    assert(whole@ =~= bytes_view(*data));
                }
                annex_b_split(whole)
            },
        }
    }

    /// The NAL units of a length-prefixed `data` buffer, one borrowed slice
    /// per well-formed record in stream order.  Scanning stops silently at a
    /// truncated trailing record — fewer than 4 header bytes left, or a
    /// declared length reaching past the end — and at an absent buffer the
    /// list is empty.
    pub fn nalus_from_lp<'a>(&'a self) -> (r: Vec<&'a [u8]>)
        ensures
            r@.map_values(|s: &[u8]| s@) == lp_records(data_view(*self)),
    {
        let mut ret: Vec<&[u8]> = Vec::new();
        proof {
            assert(ret@.map_values(|s: &[u8]| s@) =~= Seq::<Seq<u8>>::empty());
        }
        match &self.data {
            None => {
                proof {
                    assert(lp_records(Seq::<u8>::empty()) == Seq::<Seq<u8>>::empty());
                }
                ret
            },
            Some(data) => {
                let ghost content = bytes_view(*data);
                let n = bytes_len(data);
                let mut offset: usize = 0;
                proof {
                    assert(content.subrange(0, n as int) =~= content);
                }
                while offset < n
                    invariant
                        offset <= n,
                        n == content.len(),
                        content == bytes_view(*data),
                        lp_records(content) == ret@.map_values(|s: &[u8]| s@) + lp_records(
                            content.subrange(offset as int, n as int),
                        ),
                    ensures
                        lp_records(content) == ret@.map_values(|s: &[u8]| s@),
                    decreases n - offset,
                {
                    let ghost prev = ret@.map_values(|s: &[u8]| s@);
                    let ghost tail = content.subrange(offset as int, n as int);
                    if n - offset < 4 {
                        proof {
                            assert(lp_records(tail) == Seq::<Seq<u8>>::empty());
                        }
                        break ;
                    }
                    let header = bytes_slice(data, offset, offset + 4);
                    let b0 = *vstd::slice::slice_index_get(header, 0);
                    let b1 = *vstd::slice::slice_index_get(header, 1);
                    let b2 = *vstd::slice::slice_index_get(header, 2);
                    let b3 = *vstd::slice::slice_index_get(header, 3);
                    let length_u32: u32 = (b0 as u32) * 0x1000000 + (b1 as u32) * 0x10000 + (
                    b2 as u32) * 0x100 + (b3 as u32);
                    proof {
                        assert(tail.subrange(0, 4) =~= content.subrange(offset as int, offset + 4));
                        assert(length_u32 as int == be32(tail.subrange(0, 4)));
                    }
                    let length = length_u32 as usize;
                    if (n - offset) - 4 < length {
                        proof {
                            assert(tail.len() < 4 + be32(tail.subrange(0, 4)));
                            assert(lp_records(tail) == Seq::<Seq<u8>>::empty());
                        }
                        break ;
                    }
                    let nalu = bytes_slice(data, offset + 4, offset + 4 + length);
                    ret.push(nalu);
                    proof {
                        assert(tail.subrange(4, 4 + length as int) =~= content.subrange(
                            offset + 4,
                            offset + 4 + length,
                        ));
                        assert(tail.subrange(4 + length as int, tail.len() as int) =~= content
                            .subrange(offset + 4 + length, n as int));
                        assert(lp_records(tail) == seq![nalu@] + lp_records(
                            content.subrange(offset + 4 + length, n as int),
                        ));
                        assert(ret@.map_values(|s: &[u8]| s@) =~= prev.push(nalu@));
                        assert(prev.push(nalu@) + lp_records(
                            content.subrange(offset + 4 + length, n as int),
                        ) =~= prev + lp_records(tail));
                    }
                    offset = offset + 4 + length;
                }
                ret
            },
        }
    }

    /// Rewrites a length-prefixed `data` buffer to Annex-B framing: each
    /// well-formed record copied into a new buffer behind the 4-byte start
    /// code `00 00 00 01`, in stream order.  The same truncation leniency as
    /// [`Self::nalus_from_lp`]: a truncated trailing record contributes
    /// nothing, and an absent buffer gives an empty buffer.
    pub fn lp_to_nal_start_code(&self) -> (r: bytes::Bytes)
        ensures
            bytes_view(r) == annex_b_of(lp_records(data_view(*self))),
    {
        let mut nal_units = bytes_mut_new();
        match &self.data {
            None => {
                proof {
                    assert(lp_records(Seq::<u8>::empty()) == Seq::<Seq<u8>>::empty());
                    assert(annex_b_of(Seq::<Seq<u8>>::empty()) == Seq::<u8>::empty());
                }
                bytes_mut_freeze(nal_units)
            },
            Some(data) => {
                let ghost content = bytes_view(*data);
                let n = bytes_len(data);
                let mut offset: usize = 0;
                let mut done: Ghost<Seq<Seq<u8>>> = Ghost(Seq::<Seq<u8>>::empty());
                let sc: Vec<u8> = vec![0u8, 0u8, 0u8, 1u8];
                proof {
                    assert(content.subrange(0, n as int) =~= content);
                    assert(sc@ =~= start_code());
                }
                while offset < n
                    invariant
                        offset <= n,
                        n == content.len(),
                        content == bytes_view(*data),
                        sc@ == start_code(),
                        bytes_mut_view(nal_units) == annex_b_of(done@),
                        lp_records(content) == done@ + lp_records(
                            content.subrange(offset as int, n as int),
                        ),
                    ensures
                        lp_records(content) == done@,
                        bytes_mut_view(nal_units) == annex_b_of(done@),
                    decreases n - offset,
                {
                    let ghost tail = content.subrange(offset as int, n as int);
                    if n - offset < 4 {
                        proof {
                            assert(lp_records(tail) == Seq::<Seq<u8>>::empty());
                        }
                        break ;
                    }
                    let header = bytes_slice(data, offset, offset + 4);
                    let b0 = *vstd::slice::slice_index_get(header, 0);
                    let b1 = *vstd::slice::slice_index_get(header, 1);
                    let b2 = *vstd::slice::slice_index_get(header, 2);
                    let b3 = *vstd::slice::slice_index_get(header, 3);
                    let length_u32: u32 = (b0 as u32) * 0x1000000 + (b1 as u32) * 0x10000 + (
                    b2 as u32) * 0x100 + (b3 as u32);
                    proof {
                        assert(tail.subrange(0, 4) =~= content.subrange(offset as int, offset + 4));
                        assert(length_u32 as int == be32(tail.subrange(0, 4)));
                    }
                    let length = length_u32 as usize;
                    if (n - offset) - 4 < length {
                        proof {
                            assert(tail.len() < 4 + be32(tail.subrange(0, 4)));
                            assert(lp_records(tail) == Seq::<Seq<u8>>::empty());
                        }
                        break ;
                    }
                    let nalu = bytes_slice(data, offset + 4, offset + 4 + length);
                    bytes_mut_extend(&mut nal_units, sc.as_slice());
                    bytes_mut_extend(&mut nal_units, nalu);
                    proof {
                        crate::lp::lemma_annex_b_of_push(done@, nalu@);
                        assert(bytes_mut_view(nal_units) =~= annex_b_of(done@.push(nalu@)));
                        assert(tail.subrange(4, 4 + length as int) =~= content.subrange(
                            offset + 4,
                            offset + 4 + length,
                        ));
                        assert(tail.subrange(4 + length as int, tail.len() as int) =~= content
                            .subrange(offset + 4 + length, n as int));
                        assert(lp_records(tail) == seq![nalu@] + lp_records(
                            content.subrange(offset + 4 + length, n as int),
                        ));
                        assert(done@.push(nalu@) + lp_records(
                            content.subrange(offset + 4 + length, n as int),
                        ) =~= done@ + lp_records(tail));
                    }
                    done = Ghost(done@.push(nalu@));
                    offset = offset + 4 + length;
                }
                bytes_mut_freeze(nal_units)
            },
        }
    }
}

} // verus!
