//! Login: the parameters that are negotiated, and the exchange of login
//! requests and responses that leads to the full feature phase.

use crate::buffer::{bytes_as_slice, bytes_content, opt_content};
use crate::iscsi::pdu::{zero_between, Bhs, Opcode, Pdu};
use crate::iscsi::text::{
    clean_pair, decimal, kv_entry, kv_pairs, number_round_trip, number_text, pairs_round_trip,
    pairs_view, parse_number, parsed_number, push_pair, str_eq, text_of_pairs, Pair,
};
use crate::wire::{be16, be32};
use bytes::Bytes;
use vstd::prelude::*;
use vstd::utf8::encode_utf8;

pub use crate::iscsi::text::parse_kv_pairs;

verus! {

// ---------------------------------------------------------------------------
// NegotiatedParams
// ---------------------------------------------------------------------------

/// Parameters negotiated during the iSCSI login operational phase.
#[derive(Debug, Clone, Copy, PartialEq, Eq, Structural)]
pub struct NegotiatedParams {
    /// Our receive limit (declared to target).
    pub max_recv_data_segment_length: u32,
    /// Target's receive limit (our send limit).
    pub max_send_data_segment_length: u32,
    pub max_burst_length: u32,
    pub first_burst_length: u32,
    pub initial_r2t: bool,
    pub immediate_data: bool,
    pub max_outstanding_r2t: u32,
    pub max_connections: u32,
    pub data_pdu_in_order: bool,
    pub data_sequence_in_order: bool,
    pub error_recovery_level: u8,
    pub header_digest: bool,
    pub data_digest: bool,
    pub default_time2wait: u32,
    pub default_time2retain: u32,
}

/// The keys whose value is a number.
#[derive(Debug, Clone, Copy, PartialEq, Eq, Structural)]
pub enum NumberKey {
    MaxRecvDataSegmentLength,
    MaxBurstLength,
    FirstBurstLength,
    MaxOutstandingR2T,
    MaxConnections,
    ErrorRecoveryLevel,
    DefaultTime2Wait,
    DefaultTime2Retain,
}

/// Why a login failed.
#[derive(Debug, Clone, Copy, PartialEq, Eq, Structural)]
pub enum LoginError {
    /// The target answered with a header digest that is not supported.
    UnsupportedHeaderDigest,
    /// The target answered with a data digest that is not supported.
    UnsupportedDataDigest,
    /// The value of this key is no number that it can have.
    InvalidNumber(NumberKey),
    /// Another PDU came where a Login Response was due.
    UnexpectedOpcode(Opcode),
    /// The target refused the security phase.
    SecurityPhaseFailed { status_class: u8, status_detail: u8 },
    /// The target refused the operational phase.
    OperationalPhaseFailed { status_class: u8, status_detail: u8 },
}

/// The word for a digest that is used or not.
pub open spec fn digest_word(on: bool) -> Seq<char> {
    if on {
        "CRC32C"@
    } else {
        "None"@
    }
}

/// The word for a boolean value.
pub open spec fn bool_word(b: bool) -> Seq<char> {
    if b {
        "Yes"@
    } else {
        "No"@
    }
}

/// Which digest a word stands for.
pub open spec fn digest_of_word(word: Seq<char>) -> Option<bool> {
    if word == "CRC32C"@ {
        Some(true)
    } else if word == "None"@ {
        Some(false)
    } else {
        None
    }
}

pub open spec fn min_nat(a: nat, b: nat) -> nat {
    if a <= b {
        a
    } else {
        b
    }
}

fn digest_text(on: bool) -> (r: &'static str)
    ensures
        r@ == digest_word(on),
{
    if on {
        "CRC32C"
    } else {
        "None"
    }
}

fn bool_text(b: bool) -> (r: &'static str)
    ensures
        r@ == bool_word(b),
{
    if b {
        "Yes"
    } else {
        "No"
    }
}

/// The pairs that are offered to the target.
pub open spec fn operational_pairs(p: NegotiatedParams) -> Seq<Pair> {
    seq![
        ("HeaderDigest"@, digest_word(p.header_digest)),
        ("DataDigest"@, digest_word(p.data_digest)),
        ("MaxRecvDataSegmentLength"@, decimal(p.max_recv_data_segment_length as nat)),
        ("MaxBurstLength"@, decimal(p.max_burst_length as nat)),
        ("FirstBurstLength"@, decimal(p.first_burst_length as nat)),
        ("InitialR2T"@, bool_word(p.initial_r2t)),
        ("ImmediateData"@, bool_word(p.immediate_data)),
        ("MaxOutstandingR2T"@, decimal(p.max_outstanding_r2t as nat)),
        ("MaxConnections"@, decimal(p.max_connections as nat)),
        ("DataPDUInOrder"@, bool_word(p.data_pdu_in_order)),
        ("DataSequenceInOrder"@, bool_word(p.data_sequence_in_order)),
        ("ErrorRecoveryLevel"@, decimal(p.error_recovery_level as nat)),
        ("DefaultTime2Wait"@, decimal(p.default_time2wait as nat)),
        ("DefaultTime2Retain"@, decimal(p.default_time2retain as nat)),
    ]
}

/// The parameters after the target answered one key: numbers become the minimum
/// of both sides, InitialR2T is Yes if either side says so, any other boolean
/// only if both do, and the target's receive limit is our send limit.
pub open spec fn apply_pair(p: NegotiatedParams, key: Seq<char>, value: Seq<char>) -> Result<
    NegotiatedParams,
    LoginError,
> {
    let yes = value == "Yes"@;
    if key == "HeaderDigest"@ {
        match digest_of_word(value) {
            Some(header_digest) => Ok((NegotiatedParams { header_digest, ..p })),
            None => Err(LoginError::UnsupportedHeaderDigest),
        }
    } else if key == "DataDigest"@ {
        match digest_of_word(value) {
            Some(data_digest) => Ok((NegotiatedParams { data_digest, ..p })),
            None => Err(LoginError::UnsupportedDataDigest),
        }
    } else if key == "MaxRecvDataSegmentLength"@ {
        match parsed_number(value, u32::MAX as nat) {
            Some(v) => Ok((NegotiatedParams { max_send_data_segment_length: v as u32, ..p })),
            None => Err(LoginError::InvalidNumber(NumberKey::MaxRecvDataSegmentLength)),
        }
    } else if key == "MaxBurstLength"@ {
        match parsed_number(value, u32::MAX as nat) {
            Some(v) => Ok((NegotiatedParams { max_burst_length: min_nat(p.max_burst_length as nat, v) as u32, ..p })),
            None => Err(LoginError::InvalidNumber(NumberKey::MaxBurstLength)),
        }
    } else if key == "FirstBurstLength"@ {
        match parsed_number(value, u32::MAX as nat) {
            Some(v) => Ok((NegotiatedParams { first_burst_length: min_nat(p.first_burst_length as nat, v) as u32, ..p })),
            None => Err(LoginError::InvalidNumber(NumberKey::FirstBurstLength)),
        }
    } else if key == "InitialR2T"@ {
        Ok((NegotiatedParams { initial_r2t: p.initial_r2t || yes, ..p }))
    } else if key == "ImmediateData"@ {
        Ok((NegotiatedParams { immediate_data: p.immediate_data && yes, ..p }))
    } else if key == "MaxOutstandingR2T"@ {
        match parsed_number(value, u32::MAX as nat) {
            Some(v) => Ok((NegotiatedParams { max_outstanding_r2t: min_nat(p.max_outstanding_r2t as nat, v) as u32, ..p })),
            None => Err(LoginError::InvalidNumber(NumberKey::MaxOutstandingR2T)),
        }
    } else if key == "MaxConnections"@ {
        match parsed_number(value, u32::MAX as nat) {
            Some(v) => Ok((NegotiatedParams { max_connections: min_nat(p.max_connections as nat, v) as u32, ..p })),
            None => Err(LoginError::InvalidNumber(NumberKey::MaxConnections)),
        }
    } else if key == "DataPDUInOrder"@ {
        Ok((NegotiatedParams { data_pdu_in_order: p.data_pdu_in_order && yes, ..p }))
    } else if key == "DataSequenceInOrder"@ {
        Ok((NegotiatedParams { data_sequence_in_order: p.data_sequence_in_order && yes, ..p }))
    } else if key == "ErrorRecoveryLevel"@ {
        match parsed_number(value, u8::MAX as nat) {
            Some(v) => Ok((NegotiatedParams { error_recovery_level: min_nat(p.error_recovery_level as nat, v) as u8, ..p })),
            None => Err(LoginError::InvalidNumber(NumberKey::ErrorRecoveryLevel)),
        }
    } else if key == "DefaultTime2Wait"@ {
        match parsed_number(value, u32::MAX as nat) {
            Some(v) => Ok((NegotiatedParams { default_time2wait: min_nat(p.default_time2wait as nat, v) as u32, ..p })),
            None => Err(LoginError::InvalidNumber(NumberKey::DefaultTime2Wait)),
        }
    } else if key == "DefaultTime2Retain"@ {
        match parsed_number(value, u32::MAX as nat) {
            Some(v) => Ok((NegotiatedParams { default_time2retain: min_nat(p.default_time2retain as nat, v) as u32, ..p })),
            None => Err(LoginError::InvalidNumber(NumberKey::DefaultTime2Retain)),
        }
    } else {
        // Unknown keys are ignored.
        Ok(p)
    }
}

/// The parameters after the target answered these keys, up to the first
/// answer that is not acceptable, and the error that this one gives.
pub open spec fn apply_pairs(p: NegotiatedParams, pairs: Seq<Pair>) -> (
    NegotiatedParams,
    Option<LoginError>,
)
    decreases pairs.len(),
{
    if pairs.len() == 0 {
        (p, None)
    } else {
        match apply_pair(p, pairs[0].0, pairs[0].1) {
            Ok(q) => apply_pairs(q, pairs.drop_first()),
            Err(e) => (p, Some(e)),
        }
    }
}

proof fn lemma_text_of_pairs_step(pairs: Seq<Pair>, n: int)
    requires
        0 <= n < pairs.len(),
    ensures
        text_of_pairs(pairs.take(n + 1)) == text_of_pairs(pairs.take(n)) + kv_entry(pairs[n]),
{
    assert(pairs.take(n + 1).drop_last() =~= pairs.take(n));
}

impl NegotiatedParams {
    /// The 10G-optimized default parameters.
    pub open spec fn spec_defaults_10g() -> Self {
        NegotiatedParams {
            max_recv_data_segment_length: 1_048_576,
            max_send_data_segment_length: 1_048_576,
            max_burst_length: 1_048_576,
            first_burst_length: 262_144,
            initial_r2t: false,
            immediate_data: true,
            max_outstanding_r2t: 8,
            max_connections: 1,
            data_pdu_in_order: true,
            data_sequence_in_order: true,
            error_recovery_level: 0,
            header_digest: true,
            data_digest: true,
            default_time2wait: 2,
            default_time2retain: 20,
        }
    }

    /// Returns 10G-optimized default parameters.
    pub fn defaults_10g() -> (r: Self)
        ensures
            r == Self::spec_defaults_10g(),
    {
        Self {
            max_recv_data_segment_length: 1_048_576,
            max_send_data_segment_length: 1_048_576,
            max_burst_length: 1_048_576,
            first_burst_length: 262_144,
            initial_r2t: false,
            immediate_data: true,
            max_outstanding_r2t: 8,
            max_connections: 1,
            data_pdu_in_order: true,
            data_sequence_in_order: true,
            error_recovery_level: 0,
            header_digest: true,
            data_digest: true,
            default_time2wait: 2,
            default_time2retain: 20,
        }
    }

    /// Build the operational negotiation text containing all keys with 10G
    /// default values. Each key=value pair is NUL-terminated.
    pub fn build_operational_text() -> (r: String)
        ensures
            r@ == text_of_pairs(operational_pairs(Self::spec_defaults_10g())),
    {
        Self::build_operational_text_from(&Self::defaults_10g())
    }

    /// Build the operational negotiation text from custom parameters.
    pub fn build_operational_text_from(defaults: &Self) -> (r: String)
        ensures
            r@ == text_of_pairs(operational_pairs(*defaults)),
    {
        let ghost pairs = operational_pairs(*defaults);
        let mut text: String = String::new();
        assert(text@ == text_of_pairs(pairs.take(0)));
        push_pair(&mut text, "HeaderDigest", digest_text(defaults.header_digest));
        proof {
            lemma_text_of_pairs_step(pairs, 0);
        }
        push_pair(&mut text, "DataDigest", digest_text(defaults.data_digest));
        proof {
            lemma_text_of_pairs_step(pairs, 1);
        }
        push_pair(&mut text, "MaxRecvDataSegmentLength", number_text(defaults.max_recv_data_segment_length).as_str());
        proof {
            lemma_text_of_pairs_step(pairs, 2);
        }
        push_pair(&mut text, "MaxBurstLength", number_text(defaults.max_burst_length).as_str());
        proof {
            lemma_text_of_pairs_step(pairs, 3);
        }
        push_pair(&mut text, "FirstBurstLength", number_text(defaults.first_burst_length).as_str());
        proof {
            lemma_text_of_pairs_step(pairs, 4);
        }
        push_pair(&mut text, "InitialR2T", bool_text(defaults.initial_r2t));
        proof {
            lemma_text_of_pairs_step(pairs, 5);
        }
        push_pair(&mut text, "ImmediateData", bool_text(defaults.immediate_data));
        proof {
            lemma_text_of_pairs_step(pairs, 6);
        }
        push_pair(&mut text, "MaxOutstandingR2T", number_text(defaults.max_outstanding_r2t).as_str());
        proof {
            lemma_text_of_pairs_step(pairs, 7);
        }
        push_pair(&mut text, "MaxConnections", number_text(defaults.max_connections).as_str());
        proof {
            lemma_text_of_pairs_step(pairs, 8);
        }
        push_pair(&mut text, "DataPDUInOrder", bool_text(defaults.data_pdu_in_order));
        proof {
            lemma_text_of_pairs_step(pairs, 9);
        }
        push_pair(&mut text, "DataSequenceInOrder", bool_text(defaults.data_sequence_in_order));
        proof {
            lemma_text_of_pairs_step(pairs, 10);
        }
        push_pair(&mut text, "ErrorRecoveryLevel", number_text(defaults.error_recovery_level as u32).as_str());
        proof {
            lemma_text_of_pairs_step(pairs, 11);
        }
        push_pair(&mut text, "DefaultTime2Wait", number_text(defaults.default_time2wait).as_str());
        proof {
            lemma_text_of_pairs_step(pairs, 12);
        }
        push_pair(&mut text, "DefaultTime2Retain", number_text(defaults.default_time2retain).as_str());
        proof {
            lemma_text_of_pairs_step(pairs, 13);
        }
        assert(pairs.take(14) =~= pairs);
        text
    }

    /// Apply the target's answer to one key.
    fn apply_target_pair(&mut self, key: &str, value: &str) -> (r: Result<(), LoginError>)
        ensures
            match r {
                Ok(_) => apply_pair(*old(self), key@, value@) == Ok::<_, LoginError>(*final(self)),
                Err(e) => *final(self) == *old(self) && apply_pair(*old(self), key@, value@)
                    == Err::<NegotiatedParams, _>(e),
            },
    {
        if str_eq(key, "HeaderDigest") {
            self.header_digest = if str_eq(value, "CRC32C") {
                true
            } else if str_eq(value, "None") {
                false
            } else {
                return Err(LoginError::UnsupportedHeaderDigest);
            };
        } else if str_eq(key, "DataDigest") {
            self.data_digest = if str_eq(value, "CRC32C") {
                true
            } else if str_eq(value, "None") {
                false
            } else {
                return Err(LoginError::UnsupportedDataDigest);
            };
        } else if str_eq(key, "MaxRecvDataSegmentLength") {
            // Target's MaxRecvDataSegmentLength = our max send limit.
            let v: u32 = match parse_number(value, 0xFFFF_FFFF) {
                Some(v) => v,
                None => {
                    return Err(LoginError::InvalidNumber(NumberKey::MaxRecvDataSegmentLength));
                },
            };
            self.max_send_data_segment_length = v;
        } else if str_eq(key, "MaxBurstLength") {
            let v: u32 = match parse_number(value, 0xFFFF_FFFF) {
                Some(v) => v,
                None => {
                    return Err(LoginError::InvalidNumber(NumberKey::MaxBurstLength));
                },
            };
            if v < self.max_burst_length {
                self.max_burst_length = v;
            }
        } else if str_eq(key, "FirstBurstLength") {
            let v: u32 = match parse_number(value, 0xFFFF_FFFF) {
                Some(v) => v,
                None => {
                    return Err(LoginError::InvalidNumber(NumberKey::FirstBurstLength));
                },
            };
            if v < self.first_burst_length {
                self.first_burst_length = v;
            }
        } else if str_eq(key, "InitialR2T") {
            // Boolean OR: if either says Yes, result is Yes.
            let target_val = str_eq(value, "Yes");
            self.initial_r2t = self.initial_r2t || target_val;
        } else if str_eq(key, "ImmediateData") {
            // Boolean AND: Yes only if both agree.
            let target_val = str_eq(value, "Yes");
            self.immediate_data = self.immediate_data && target_val;
        } else if str_eq(key, "MaxOutstandingR2T") {
            let v: u32 = match parse_number(value, 0xFFFF_FFFF) {
                Some(v) => v,
                None => {
                    return Err(LoginError::InvalidNumber(NumberKey::MaxOutstandingR2T));
                },
            };
            if v < self.max_outstanding_r2t {
                self.max_outstanding_r2t = v;
            }
        } else if str_eq(key, "MaxConnections") {
            let v: u32 = match parse_number(value, 0xFFFF_FFFF) {
                Some(v) => v,
                None => {
                    return Err(LoginError::InvalidNumber(NumberKey::MaxConnections));
                },
            };
            if v < self.max_connections {
                self.max_connections = v;
            }
        } else if str_eq(key, "DataPDUInOrder") {
            let target_val = str_eq(value, "Yes");
            self.data_pdu_in_order = self.data_pdu_in_order && target_val;
        } else if str_eq(key, "DataSequenceInOrder") {
            let target_val = str_eq(value, "Yes");
            self.data_sequence_in_order = self.data_sequence_in_order && target_val;
        } else if str_eq(key, "ErrorRecoveryLevel") {
            let v: u32 = match parse_number(value, 0xFF) {
                Some(v) => v,
                None => {
                    return Err(LoginError::InvalidNumber(NumberKey::ErrorRecoveryLevel));
                },
            };
            if (v as u8) < self.error_recovery_level {
                self.error_recovery_level = v as u8;
            }
        } else if str_eq(key, "DefaultTime2Wait") {
            let v: u32 = match parse_number(value, 0xFFFF_FFFF) {
                Some(v) => v,
                None => {
                    return Err(LoginError::InvalidNumber(NumberKey::DefaultTime2Wait));
                },
            };
            if v < self.default_time2wait {
                self.default_time2wait = v;
            }
        } else if str_eq(key, "DefaultTime2Retain") {
            let v: u32 = match parse_number(value, 0xFFFF_FFFF) {
                Some(v) => v,
                None => {
                    return Err(LoginError::InvalidNumber(NumberKey::DefaultTime2Retain));
                },
            };
            if v < self.default_time2retain {
                self.default_time2retain = v;
            }
        }
        Ok(())
    }

    /// Parse the target's response key-value pairs and apply negotiation
    /// rules to update our parameters.
    pub fn apply_target_response(&mut self, data: &[u8]) -> (r: Result<(), LoginError>)
        ensures
            match r {
                Ok(_) => apply_pairs(*old(self), kv_pairs(data@)) == (*final(self), None::<LoginError>),
                Err(e) => apply_pairs(*old(self), kv_pairs(data@)) == (*final(self), Some(e)),
            },
    {
        let pairs = parse_kv_pairs(data);
        let ghost all = kv_pairs(data@);
        let mut i: usize = 0;
        assert(all.skip(0) =~= all);
        while i < pairs.len()
            invariant
                i <= pairs.len(),
                pairs_view(pairs@) == all,
                all == kv_pairs(data@),
                apply_pairs(*self, all.skip(i as int)) == apply_pairs(*old(self), all),
            decreases pairs.len() - i,
        {
            let (key, value) = pairs[i];
            assert(all[i as int] == (key@, value@)) by {
                assert(pairs_view(pairs@)[i as int] == (key@, value@));
            }
            assert(all.skip(i as int)[0] == all[i as int]);
            assert(all.skip(i as int).drop_first() =~= all.skip(i + 1));
            match self.apply_target_pair(key, value) {
                Ok(_) => {},
                Err(e) => {
                    return Err(e);
                },
            }
            i = i + 1;
        }
        Ok(())
    }
}

// ---------------------------------------------------------------------------
// LoginResult
// ---------------------------------------------------------------------------

/// Result of a successful iSCSI login.
#[derive(Debug, Clone, Copy, PartialEq, Eq, Structural)]
pub struct LoginResult {
    pub tsih: u16,
    pub negotiated: NegotiatedParams,
    /// The first CmdSN to use in Full Feature Phase (from target's ExpCmdSN)
    pub initial_cmd_sn: u32,
    /// The first StatSN we expect from the target (last login StatSN + 1)
    pub initial_exp_stat_sn: u32,
}

// ---------------------------------------------------------------------------
// LoginManager
// ---------------------------------------------------------------------------

/// Drives the iSCSI login state machine (security + operational phases).
pub struct LoginManager {
    pub isid: [u8; 6],
    pub initiator_name: String,
    pub target_name: String,
}

/// A login that is under way.
#[derive(Debug, Clone, Copy, PartialEq, Eq, Structural)]
pub struct LoginExchange {
    pub cid: u16,
    /// The parameters to offer, where they are not the defaults.
    pub custom_params: Option<NegotiatedParams>,
    /// The session handle from the security phase, once that is over.
    pub tsih: Option<u16>,
}

impl LoginExchange {
    /// `self` is the exchange `before` with the target's next response, which
    /// is followed by `step`; `isid` names the session on our side.
    pub open spec fn takes(
        self,
        before: Self,
        isid: Seq<u8>,
        resp: Pdu,
        step: Result<LoginStep, LoginError>,
    ) -> bool {
        &&& self.cid == before.cid
        &&& self.custom_params == before.custom_params
        &&& match before.tsih {
            None => match security_outcome(resp) {
                Err(e) => step == Err::<LoginStep, _>(e) && self.tsih is None,
                Ok(tsih) => {
                    &&& self.tsih == Some(tsih)
                    &&& step matches Ok(LoginStep::Send(pdu))
                    &&& is_login_request(
                        pdu,
                        isid,
                        tsih,
                        before.cid,
                        2,
                        2,
                        1,
                        1,
                        3,
                        text_of_pairs(
                            operational_pairs(offered_params(before.custom_params)),
                        ),
                    )
                },
            },
            Some(tsih) => {
                &&& self.tsih == Some(tsih)
                &&& match operational_outcome(resp, before.custom_params) {
                    Err(e) => step == Err::<LoginStep, _>(e),
                    Ok((negotiated, initial_cmd_sn, initial_exp_stat_sn)) => step == Ok::<
                        _,
                        LoginError,
                    >(
                        LoginStep::Done(
                            LoginResult {
                                tsih,
                                negotiated,
                                initial_cmd_sn,
                                initial_exp_stat_sn,
                            },
                        ),
                    ),
                }
            },
        }
    }
}

/// What to do after a login response.
pub enum LoginStep {
    /// Send this PDU and wait for the next response.
    Send(Pdu),
    /// The login is complete.
    Done(LoginResult),
}

/// The pairs of the security phase.
pub open spec fn security_pairs(initiator: Seq<char>, target: Seq<char>) -> Seq<Pair> {
    seq![
        ("InitiatorName"@, initiator),
        ("TargetName"@, target),
        ("SessionType"@, "Normal"@),
        ("AuthMethod"@, "None"@),
    ]
}

/// `pdu` is the login request with these numbers and this text, with the
/// transit bit set.
pub open spec fn is_login_request(
    pdu: Pdu,
    isid: Seq<u8>,
    tsih: u16,
    cid: u16,
    itt: u32,
    cmd_sn: u32,
    exp_stat_sn: u32,
    csg: int,
    nsg: int,
    text: Seq<char>,
) -> bool {
    let bhs = pdu.bhs;
    let data = encode_utf8(text);
    &&& bhs.has_fields(
        Opcode::LoginRequest,
        true,
        0x80 + csg * 4 + nsg,
        data.len() as u32,
        0,
        itt,
    )
    &&& zero_between(bhs.raw@, 2, 5)
    &&& bhs.raw@.subrange(8, 14) == isid
    &&& be16(bhs.raw@, 14) == tsih
    &&& be32(bhs.raw@, 16) == itt
    &&& be16(bhs.raw@, 20) == cid
    &&& zero_between(bhs.raw@, 22, 24)
    &&& be32(bhs.raw@, 24) == cmd_sn
    &&& be32(bhs.raw@, 28) == exp_stat_sn
    &&& zero_between(bhs.raw@, 32, 48)
    &&& pdu.ahs is None
    &&& opt_content(pdu.data) == Some(data)
}

/// The parameters that a login offers.
pub open spec fn offered_params(custom: Option<NegotiatedParams>) -> NegotiatedParams {
    match custom {
        Some(p) => p,
        None => NegotiatedParams::spec_defaults_10g(),
    }
}

/// The data of a PDU, empty where it has none.
pub open spec fn pdu_data(pdu: Pdu) -> Seq<u8> {
    match pdu.data {
        Some(data) => bytes_content(data),
        None => seq![],
    }
}

/// What the response to the security request gives: the session handle, if
/// the target agreed.
pub open spec fn security_outcome(resp: Pdu) -> Result<u16, LoginError> {
    if resp.bhs.opcode != Opcode::LoginResponse {
        Err(LoginError::UnexpectedOpcode(resp.bhs.opcode))
    } else if resp.bhs.raw[36] != 0 {
        Err(
            LoginError::SecurityPhaseFailed {
                status_class: resp.bhs.raw[36],
                status_detail: resp.bhs.raw[37],
            },
        )
    } else {
        Ok(be16(resp.bhs.raw@, 14) as u16)
    }
}

/// What the response to the operational request gives: the parameters, the
/// first CmdSN and the first StatSN to expect, if the target agreed.
pub open spec fn operational_outcome(resp: Pdu, custom: Option<NegotiatedParams>) -> Result<
    (NegotiatedParams, u32, u32),
    LoginError,
> {
    if resp.bhs.opcode != Opcode::LoginResponse {
        Err(LoginError::UnexpectedOpcode(resp.bhs.opcode))
    } else if resp.bhs.raw[36] != 0 {
        Err(
            LoginError::OperationalPhaseFailed {
                status_class: resp.bhs.raw[36],
                status_detail: resp.bhs.raw[37],
            },
        )
    } else {
        match apply_pairs(offered_params(custom), kv_pairs(pdu_data(resp))) {
            (_, Some(e)) => Err(e),
            (params, None) => Ok(
                (
                    params,
                    be32(resp.bhs.raw@, 28) as u32,
                    ((be32(resp.bhs.raw@, 24) + 1) % 0x1_0000_0000) as u32,
                ),
            ),
        }
    }
}

impl LoginManager {
    /// Create a new LoginManager with a deterministic ISID (type=0x80 random).
    pub fn new(initiator: &str, target: &str) -> (r: Self)
        ensures
            r.isid@ == seq![0x80u8, 0, 0, 0, 0, 1],
            r.initiator_name@ == initiator@,
            r.target_name@ == target@,
    {
        let isid: [u8; 6] = [0x80, 0x00, 0x00, 0x00, 0x00, 0x01];
        assert(isid@ =~= seq![0x80u8, 0, 0, 0, 0, 1]);
        Self { isid, initiator_name: initiator.to_owned(), target_name: target.to_owned() }
    }

    /// The text of the security phase.
    pub open spec fn security_text(self) -> Seq<char> {
        text_of_pairs(security_pairs(self.initiator_name@, self.target_name@))
    }

    /// Build the security-phase negotiation text.
    pub fn build_security_text(&self) -> (r: String)
        ensures
            r@ == self.security_text(),
    {
        let ghost pairs = security_pairs(self.initiator_name@, self.target_name@);
        let mut text: String = String::new();
        assert(text@ == text_of_pairs(pairs.take(0)));
        push_pair(&mut text, "InitiatorName", self.initiator_name.as_str());
        proof {
            lemma_text_of_pairs_step(pairs, 0);
        }
        push_pair(&mut text, "TargetName", self.target_name.as_str());
        proof {
            lemma_text_of_pairs_step(pairs, 1);
        }
        push_pair(&mut text, "SessionType", "Normal");
        proof {
            lemma_text_of_pairs_step(pairs, 2);
        }
        push_pair(&mut text, "AuthMethod", "None");
        proof {
            lemma_text_of_pairs_step(pairs, 3);
        }
        assert(pairs.take(4) =~= pairs);
        text
    }

    /// A login request PDU that carries `text`.
    fn login_request(
        &self,
        tsih: u16,
        cid: u16,
        sn: u32,
        exp_stat_sn: u32,
        csg: u8,
        nsg: u8,
        text: &str,
    ) -> (r: Pdu)
        requires
            csg < 4,
            nsg < 4,
        ensures
            is_login_request(
                r,
                self.isid@,
                tsih,
                cid,
                sn,
                sn,
                exp_stat_sn,
                csg as int,
                nsg as int,
                text@,
            ),
    {
        let data: Bytes = Bytes::copy_from_slice(text.as_bytes());
        let mut bhs = Bhs::build_login_request(
            self.isid,
            tsih,
            cid,
            sn,
            sn,
            exp_stat_sn,
            csg,
            nsg,
            true,
        );
        bhs.data_segment_length = data.len() as u32;
        Pdu { bhs, ahs: None, data: Some(data) }
    }

    /// The request of the security phase: CSG=0 (SecurityNegotiation), NSG=1
    /// (LoginOperationalNegotiation), T=1 (transit). A TSIH of 0 asks for a new
    /// session.
    pub fn security_request(&self, cid: u16) -> (r: Pdu)
        ensures
            is_login_request(r, self.isid@, 0, cid, 1, 1, 0, 0, 1, self.security_text()),
    {
        let text: String = self.build_security_text();
        self.login_request(0, cid, 1, 0, 0, 1, text.as_str())
    }

    /// The end of the security phase: what the target's response means.
    pub fn security_phase(&self, resp: &Pdu) -> (r: Result<u16, LoginError>)
        ensures
            r == security_outcome(*resp),
    {
        if resp.bhs.opcode != Opcode::LoginResponse {
            return Err(LoginError::UnexpectedOpcode(resp.bhs.opcode));
        }
        let status_class: u8 = resp.bhs.login_status_class();
        if status_class != 0 {
            return Err(
                LoginError::SecurityPhaseFailed {
                    status_class,
                    status_detail: resp.bhs.login_status_detail(),
                },
            );
        }
        Ok(resp.bhs.tsih())
    }

    /// The request of the operational phase: CSG=1
    /// (LoginOperationalNegotiation), NSG=3 (FullFeaturePhase), T=1 (transit).
    pub fn operational_request(
        &self,
        cid: u16,
        tsih: u16,
        custom_params: Option<NegotiatedParams>,
    ) -> (r: Pdu)
        ensures
            is_login_request(
                r,
                self.isid@,
                tsih,
                cid,
                2,
                2,
                1,
                1,
                3,
                text_of_pairs(operational_pairs(offered_params(custom_params))),
            ),
    {
        let text: String = match custom_params {
            Some(p) => NegotiatedParams::build_operational_text_from(&p),
            None => NegotiatedParams::build_operational_text(),
        };
        self.login_request(tsih, cid, 2, 1, 1, 3, text.as_str())
    }

    /// The end of the operational phase with the default parameters.
    pub fn operational_phase(&self, resp: &Pdu) -> (r: Result<
        (NegotiatedParams, u32, u32),
        LoginError,
    >)
        ensures
            r == operational_outcome(*resp, None),
    {
        self.operational_phase_with_params(resp, None)
    }

    /// The end of the operational phase: what the target's response means.
    pub fn operational_phase_with_params(
        &self,
        resp: &Pdu,
        custom_params: Option<NegotiatedParams>,
    ) -> (r: Result<(NegotiatedParams, u32, u32), LoginError>)
        ensures
            r == operational_outcome(*resp, custom_params),
    {
        if resp.bhs.opcode != Opcode::LoginResponse {
            return Err(LoginError::UnexpectedOpcode(resp.bhs.opcode));
        }
        let status_class: u8 = resp.bhs.login_status_class();
        if status_class != 0 {
            return Err(
                LoginError::OperationalPhaseFailed {
                    status_class,
                    status_detail: resp.bhs.login_status_detail(),
                },
            );
        }
        let mut params = match custom_params {
            Some(p) => p,
            None => NegotiatedParams::defaults_10g(),
        };
        match &resp.data {
            Some(resp_data) => match params.apply_target_response(bytes_as_slice(resp_data)) {
                Ok(_) => {},
                Err(e) => {
                    return Err(e);
                },
            },
            None => {
                proof {
                    lemma_no_data_no_pairs();
                }
            },
        }
        // Extract sequence numbers from the final login response for FFP init.
        let initial_cmd_sn: u32 = resp.bhs.exp_cmd_sn();
        let initial_exp_stat_sn: u32 = resp.bhs.stat_sn().wrapping_add(1);
        Ok((params, initial_cmd_sn, initial_exp_stat_sn))
    }

    /// Begin the full login sequence with the default parameters: the exchange
    /// and the first PDU to send.
    pub fn login(&self, cid: u16) -> (r: (LoginExchange, Pdu))
        ensures
            r.0 == (LoginExchange { cid, custom_params: None, tsih: None }),
            is_login_request(r.1, self.isid@, 0, cid, 1, 1, 0, 0, 1, self.security_text()),
    {
        self.login_with_params(cid, None)
    }

    /// Begin a login with optional custom negotiation parameters.
    pub fn login_with_params(&self, cid: u16, custom_params: Option<NegotiatedParams>) -> (r: (
        LoginExchange,
        Pdu,
    ))
        ensures
            r.0 == (LoginExchange { cid, custom_params, tsih: None }),
            is_login_request(r.1, self.isid@, 0, cid, 1, 1, 0, 0, 1, self.security_text()),
    {
        (LoginExchange { cid, custom_params, tsih: None }, self.security_request(cid))
    }

    /// Take the target's next response: first that of the security phase, which
    /// is followed by the operational request, then that of the operational
    /// phase, which completes the login.
    pub fn on_response(&self, exchange: &mut LoginExchange, resp: &Pdu) -> (r: Result<
        LoginStep,
        LoginError,
    >)
        ensures
            final(exchange).takes(*old(exchange), self.isid@, *resp, r),
    {
        match exchange.tsih {
            None => {
                let tsih: u16 = match self.security_phase(resp) {
                    Ok(tsih) => tsih,
                    Err(e) => {
                        return Err(e);
                    },
                };
                exchange.tsih = Some(tsih);
                Ok(
                    LoginStep::Send(
                        self.operational_request(exchange.cid, tsih, exchange.custom_params),
                    ),
                )
            },
            Some(tsih) => match self.operational_phase_with_params(resp, exchange.custom_params) {
                Err(e) => Err(e),
                Ok((negotiated, initial_cmd_sn, initial_exp_stat_sn)) => Ok(
                    LoginStep::Done(
                        LoginResult { tsih, negotiated, initial_cmd_sn, initial_exp_stat_sn },
                    ),
                ),
            },
        }
    }
}

proof fn lemma_no_data_no_pairs()
    ensures
        kv_pairs(seq![]) == Seq::<Pair>::empty(),
{
    let none: Seq<char> = seq![];
    vstd::utf8::encode_utf8_decode_utf8(none);
    assert(encode_utf8(none) =~= seq![]);
    assert(kv_pairs(seq![]) =~= seq![]);
}

// ---------------------------------------------------------------------------
// Laws of the negotiation
// ---------------------------------------------------------------------------

/// `q` is no more generous than `p`.
pub open spec fn no_wider(q: NegotiatedParams, p: NegotiatedParams) -> bool {
    &&& q.max_recv_data_segment_length == p.max_recv_data_segment_length
    &&& q.max_burst_length <= p.max_burst_length
    &&& q.first_burst_length <= p.first_burst_length
    &&& q.max_outstanding_r2t <= p.max_outstanding_r2t
    &&& q.max_connections <= p.max_connections
    &&& q.error_recovery_level <= p.error_recovery_level
    &&& q.default_time2wait <= p.default_time2wait
    &&& q.default_time2retain <= p.default_time2retain
    &&& p.initial_r2t ==> q.initial_r2t
    &&& q.immediate_data ==> p.immediate_data
    &&& q.data_pdu_in_order ==> p.data_pdu_in_order
    &&& q.data_sequence_in_order ==> p.data_sequence_in_order
}

/// Negotiation never widens what was offered, whatever the target answers: our
/// declared receive limit stays, the numbers only shrink, InitialR2T is never
/// given up and no other boolean is gained.
pub proof fn negotiation_only_narrows(p: NegotiatedParams, pairs: Seq<Pair>)
    ensures
        no_wider(apply_pairs(p, pairs).0, p),
    decreases pairs.len(),
{
    if pairs.len() > 0 {
        match apply_pair(p, pairs[0].0, pairs[0].1) {
            Ok(q) => {
                negotiation_only_narrows(q, pairs.drop_first());
            },
            Err(_) => {},
        }
    }
}

/// `b` agrees with `r` in every value that is settled between the two sides, and
/// with `a` or `r` in each value that is taken as it comes.
spec fn caught_up(a: NegotiatedParams, b: NegotiatedParams, r: NegotiatedParams) -> bool {
    &&& b.max_recv_data_segment_length == r.max_recv_data_segment_length
    &&& b.max_burst_length == r.max_burst_length
    &&& b.first_burst_length == r.first_burst_length
    &&& b.max_outstanding_r2t == r.max_outstanding_r2t
    &&& b.max_connections == r.max_connections
    &&& b.error_recovery_level == r.error_recovery_level
    &&& b.default_time2wait == r.default_time2wait
    &&& b.default_time2retain == r.default_time2retain
    &&& b.initial_r2t == r.initial_r2t
    &&& b.immediate_data == r.immediate_data
    &&& b.data_pdu_in_order == r.data_pdu_in_order
    &&& b.data_sequence_in_order == r.data_sequence_in_order
    &&& b.max_send_data_segment_length == a.max_send_data_segment_length
        || b.max_send_data_segment_length == r.max_send_data_segment_length
    &&& b.header_digest == a.header_digest || b.header_digest == r.header_digest
    &&& b.data_digest == a.data_digest || b.data_digest == r.data_digest
}

#[verifier::spinoff_prover]
#[verifier::rlimit(40)]
proof fn lemma_catches_up(
    a: NegotiatedParams,
    b: NegotiatedParams,
    r: NegotiatedParams,
    key: Seq<char>,
    value: Seq<char>,
)
    requires
        caught_up(a, b, r),
        apply_pair(a, key, value) matches Ok(a2) ==> no_wider(r, a2),
    ensures
        match apply_pair(a, key, value) {
            Ok(a2) => apply_pair(b, key, value) matches Ok(b2) && caught_up(a2, b2, r),
            Err(e) => apply_pair(b, key, value) == Err::<NegotiatedParams, _>(e),
        },
{
}

proof fn lemma_apply_again(a: NegotiatedParams, b: NegotiatedParams, pairs: Seq<Pair>)
    requires
        caught_up(a, b, apply_pairs(a, pairs).0),
    ensures
        apply_pairs(b, pairs) == apply_pairs(a, pairs),
    decreases pairs.len(),
{
    if pairs.len() > 0 {
        let (key, value) = pairs[0];
        let rest = pairs.drop_first();
        match apply_pair(a, key, value) {
            Ok(a2) => {
                negotiation_only_narrows(a2, rest);
                lemma_catches_up(a, b, apply_pairs(a2, rest).0, key, value);
                lemma_apply_again(a2, apply_pair(b, key, value)->Ok_0, rest);
            },
            Err(_) => {
                lemma_catches_up(a, b, a, key, value);
            },
        }
    }
}

/// An answer counts once: to apply the same answer again changes nothing, and
/// fails where it failed before.
pub proof fn same_answer_again_changes_nothing(p: NegotiatedParams, pairs: Seq<Pair>)
    ensures
        apply_pairs(apply_pairs(p, pairs).0, pairs) == apply_pairs(p, pairs),
{
    lemma_apply_again(p, apply_pairs(p, pairs).0, pairs);
}

/// The keys of the offer are those that an answer is taken for: an answer to
/// any other key changes nothing.
pub proof fn unknown_keys_are_ignored(p: NegotiatedParams, key: Seq<char>, value: Seq<char>)
    requires
        forall|i: int| 0 <= i < 14 ==> (#[trigger] operational_pairs(p)[i]).0 != key,
    ensures
        apply_pair(p, key, value) == Ok::<_, LoginError>(p),
{
    let o = operational_pairs(p);
    assert(o[0].0 == "HeaderDigest"@);
    assert(o[1].0 == "DataDigest"@);
    assert(o[2].0 == "MaxRecvDataSegmentLength"@);
    assert(o[3].0 == "MaxBurstLength"@);
    assert(o[4].0 == "FirstBurstLength"@);
    assert(o[5].0 == "InitialR2T"@);
    assert(o[6].0 == "ImmediateData"@);
    assert(o[7].0 == "MaxOutstandingR2T"@);
    assert(o[8].0 == "MaxConnections"@);
    assert(o[9].0 == "DataPDUInOrder"@);
    assert(o[10].0 == "DataSequenceInOrder"@);
    assert(o[11].0 == "ErrorRecoveryLevel"@);
    assert(o[12].0 == "DefaultTime2Wait"@);
    assert(o[13].0 == "DefaultTime2Retain"@);
}

/// No `=` and no NUL in `s`.
spec fn plain(s: Seq<char>) -> bool {
    forall|i: int| 0 <= i < s.len() ==> #[trigger] s[i] != '=' && s[i] != '\0'
}

/// The keys differ pairwise in their length, their first or their fourth
/// character.
proof fn lemma_keys_differ()
    ensures
        "HeaderDigest"@.len() == 12 && "HeaderDigest"@[0] == 'H' && "HeaderDigest"@[3] == 'd',
        "DataDigest"@.len() == 10 && "DataDigest"@[0] == 'D' && "DataDigest"@[3] == 'a',
        "MaxRecvDataSegmentLength"@.len() == 24 && "MaxRecvDataSegmentLength"@[0] == 'M' && "MaxRecvDataSegmentLength"@[3] == 'R',
        "MaxBurstLength"@.len() == 14 && "MaxBurstLength"@[0] == 'M' && "MaxBurstLength"@[3] == 'B',
        "FirstBurstLength"@.len() == 16 && "FirstBurstLength"@[0] == 'F' && "FirstBurstLength"@[3] == 's',
        "InitialR2T"@.len() == 10 && "InitialR2T"@[0] == 'I' && "InitialR2T"@[3] == 't',
        "ImmediateData"@.len() == 13 && "ImmediateData"@[0] == 'I' && "ImmediateData"@[3] == 'e',
        "MaxOutstandingR2T"@.len() == 17 && "MaxOutstandingR2T"@[0] == 'M' && "MaxOutstandingR2T"@[3] == 'O',
        "MaxConnections"@.len() == 14 && "MaxConnections"@[0] == 'M' && "MaxConnections"@[3] == 'C',
        "DataPDUInOrder"@.len() == 14 && "DataPDUInOrder"@[0] == 'D' && "DataPDUInOrder"@[3] == 'a',
        "DataSequenceInOrder"@.len() == 19 && "DataSequenceInOrder"@[0] == 'D' && "DataSequenceInOrder"@[3] == 'a',
        "ErrorRecoveryLevel"@.len() == 18 && "ErrorRecoveryLevel"@[0] == 'E' && "ErrorRecoveryLevel"@[3] == 'o',
        "DefaultTime2Wait"@.len() == 16 && "DefaultTime2Wait"@[0] == 'D' && "DefaultTime2Wait"@[3] == 'a',
        "DefaultTime2Retain"@.len() == 18 && "DefaultTime2Retain"@[0] == 'D' && "DefaultTime2Retain"@[3] == 'a',
{
    reveal_strlit("HeaderDigest");
    reveal_strlit("DataDigest");
    reveal_strlit("MaxRecvDataSegmentLength");
    reveal_strlit("MaxBurstLength");
    reveal_strlit("FirstBurstLength");
    reveal_strlit("InitialR2T");
    reveal_strlit("ImmediateData");
    reveal_strlit("MaxOutstandingR2T");
    reveal_strlit("MaxConnections");
    reveal_strlit("DataPDUInOrder");
    reveal_strlit("DataSequenceInOrder");
    reveal_strlit("ErrorRecoveryLevel");
    reveal_strlit("DefaultTime2Wait");
    reveal_strlit("DefaultTime2Retain");
}

proof fn lemma_keys_are_plain()
    ensures
        plain("HeaderDigest"@),
        plain("DataDigest"@),
        plain("MaxRecvDataSegmentLength"@),
        plain("MaxBurstLength"@),
        plain("FirstBurstLength"@),
        plain("InitialR2T"@),
        plain("ImmediateData"@),
        plain("MaxOutstandingR2T"@),
        plain("MaxConnections"@),
        plain("DataPDUInOrder"@),
        plain("DataSequenceInOrder"@),
        plain("ErrorRecoveryLevel"@),
        plain("DefaultTime2Wait"@),
        plain("DefaultTime2Retain"@),
{
    reveal_strlit("HeaderDigest");
    assert("HeaderDigest"@ =~= seq!['H', 'e', 'a', 'd', 'e', 'r', 'D', 'i', 'g', 'e', 's', 't']);
    reveal_strlit("DataDigest");
    assert("DataDigest"@ =~= seq!['D', 'a', 't', 'a', 'D', 'i', 'g', 'e', 's', 't']);
    reveal_strlit("MaxRecvDataSegmentLength");
    assert("MaxRecvDataSegmentLength"@ =~= seq!['M', 'a', 'x', 'R', 'e', 'c', 'v', 'D', 'a', 't', 'a', 'S', 'e', 'g', 'm', 'e', 'n', 't', 'L', 'e', 'n', 'g', 't', 'h']);
    reveal_strlit("MaxBurstLength");
    assert("MaxBurstLength"@ =~= seq!['M', 'a', 'x', 'B', 'u', 'r', 's', 't', 'L', 'e', 'n', 'g', 't', 'h']);
    reveal_strlit("FirstBurstLength");
    assert("FirstBurstLength"@ =~= seq!['F', 'i', 'r', 's', 't', 'B', 'u', 'r', 's', 't', 'L', 'e', 'n', 'g', 't', 'h']);
    reveal_strlit("InitialR2T");
    assert("InitialR2T"@ =~= seq!['I', 'n', 'i', 't', 'i', 'a', 'l', 'R', '2', 'T']);
    reveal_strlit("ImmediateData");
    assert("ImmediateData"@ =~= seq!['I', 'm', 'm', 'e', 'd', 'i', 'a', 't', 'e', 'D', 'a', 't', 'a']);
    reveal_strlit("MaxOutstandingR2T");
    assert("MaxOutstandingR2T"@ =~= seq!['M', 'a', 'x', 'O', 'u', 't', 's', 't', 'a', 'n', 'd', 'i', 'n', 'g', 'R', '2', 'T']);
    reveal_strlit("MaxConnections");
    assert("MaxConnections"@ =~= seq!['M', 'a', 'x', 'C', 'o', 'n', 'n', 'e', 'c', 't', 'i', 'o', 'n', 's']);
    reveal_strlit("DataPDUInOrder");
    assert("DataPDUInOrder"@ =~= seq!['D', 'a', 't', 'a', 'P', 'D', 'U', 'I', 'n', 'O', 'r', 'd', 'e', 'r']);
    reveal_strlit("DataSequenceInOrder");
    assert("DataSequenceInOrder"@ =~= seq!['D', 'a', 't', 'a', 'S', 'e', 'q', 'u', 'e', 'n', 'c', 'e', 'I', 'n', 'O', 'r', 'd', 'e', 'r']);
    reveal_strlit("ErrorRecoveryLevel");
    assert("ErrorRecoveryLevel"@ =~= seq!['E', 'r', 'r', 'o', 'r', 'R', 'e', 'c', 'o', 'v', 'e', 'r', 'y', 'L', 'e', 'v', 'e', 'l']);
    reveal_strlit("DefaultTime2Wait");
    assert("DefaultTime2Wait"@ =~= seq!['D', 'e', 'f', 'a', 'u', 'l', 't', 'T', 'i', 'm', 'e', '2', 'W', 'a', 'i', 't']);
    reveal_strlit("DefaultTime2Retain");
    assert("DefaultTime2Retain"@ =~= seq!['D', 'e', 'f', 'a', 'u', 'l', 't', 'T', 'i', 'm', 'e', '2', 'R', 'e', 't', 'a', 'i', 'n']);
}

proof fn lemma_words()
    ensures
        plain("CRC32C"@),
        plain("None"@),
        plain("Yes"@),
        plain("No"@),
        "CRC32C"@ != "None"@,
        "Yes"@ != "No"@,
{
    reveal_strlit("CRC32C");
    reveal_strlit("None");
    reveal_strlit("Yes");
    reveal_strlit("No");
    assert("CRC32C"@ =~= seq!['C', 'R', 'C', '3', '2', 'C']);
    assert("None"@ =~= seq!['N', 'o', 'n', 'e']);
    assert("Yes"@ =~= seq!['Y', 'e', 's']);
    assert("No"@ =~= seq!['N', 'o']);
}

/// The offer reaches the target: the pairs that a target reads from the text of
/// the operational request are exactly the pairs that are offered.
pub proof fn offer_is_read_back(p: NegotiatedParams)
    ensures
        kv_pairs(encode_utf8(text_of_pairs(operational_pairs(p)))) == operational_pairs(p),
{
    let pairs = operational_pairs(p);
    lemma_keys_are_plain();
    lemma_words();
    number_round_trip(p.max_burst_length as nat, u32::MAX as nat);
    number_round_trip(p.first_burst_length as nat, u32::MAX as nat);
    number_round_trip(p.max_outstanding_r2t as nat, u32::MAX as nat);
    number_round_trip(p.max_connections as nat, u32::MAX as nat);
    number_round_trip(p.error_recovery_level as nat, u32::MAX as nat);
    number_round_trip(p.default_time2wait as nat, u32::MAX as nat);
    number_round_trip(p.default_time2retain as nat, u32::MAX as nat);
    number_round_trip(p.max_recv_data_segment_length as nat, u32::MAX as nat);
    assert(pairs[0].0 == "HeaderDigest"@ && clean_pair(pairs[0]));
    assert(pairs[1].0 == "DataDigest"@ && clean_pair(pairs[1]));
    assert(pairs[2].0 == "MaxRecvDataSegmentLength"@ && clean_pair(pairs[2]));
    assert(pairs[3].0 == "MaxBurstLength"@ && clean_pair(pairs[3]));
    assert(pairs[4].0 == "FirstBurstLength"@ && clean_pair(pairs[4]));
    assert(pairs[5].0 == "InitialR2T"@ && clean_pair(pairs[5]));
    assert(pairs[6].0 == "ImmediateData"@ && clean_pair(pairs[6]));
    assert(pairs[7].0 == "MaxOutstandingR2T"@ && clean_pair(pairs[7]));
    assert(pairs[8].0 == "MaxConnections"@ && clean_pair(pairs[8]));
    assert(pairs[9].0 == "DataPDUInOrder"@ && clean_pair(pairs[9]));
    assert(pairs[10].0 == "DataSequenceInOrder"@ && clean_pair(pairs[10]));
    assert(pairs[11].0 == "ErrorRecoveryLevel"@ && clean_pair(pairs[11]));
    assert(pairs[12].0 == "DefaultTime2Wait"@ && clean_pair(pairs[12]));
    assert(pairs[13].0 == "DefaultTime2Retain"@ && clean_pair(pairs[13]));
    assert forall|i: int| 0 <= i < pairs.len() implies clean_pair(#[trigger] pairs[i]) by {
        assert(i == 0 || i == 1 || i == 2 || i == 3 || i == 4 || i == 5 || i == 6 || i == 7 || i
            == 8 || i == 9 || i == 10 || i == 11 || i == 12 || i == 13);
    }
    pairs_round_trip(pairs);
}

/// The security text reaches the target: the pairs that it reads are the names
/// and the methods that were sent, where the names hold no NUL.
pub proof fn security_text_is_read_back(initiator: Seq<char>, target: Seq<char>)
    requires
        !initiator.contains('\0'),
        !target.contains('\0'),
    ensures
        kv_pairs(encode_utf8(text_of_pairs(security_pairs(initiator, target)))) == security_pairs(
            initiator,
            target,
        ),
{
    reveal_strlit("InitiatorName");
    reveal_strlit("TargetName");
    reveal_strlit("SessionType");
    reveal_strlit("AuthMethod");
    reveal_strlit("Normal");
    assert("InitiatorName"@ =~= seq!['I', 'n', 'i', 't', 'i', 'a', 't', 'o', 'r', 'N', 'a', 'm', 'e']);
    assert("TargetName"@ =~= seq!['T', 'a', 'r', 'g', 'e', 't', 'N', 'a', 'm', 'e']);
    assert("SessionType"@ =~= seq!['S', 'e', 's', 's', 'i', 'o', 'n', 'T', 'y', 'p', 'e']);
    assert("AuthMethod"@ =~= seq!['A', 'u', 't', 'h', 'M', 'e', 't', 'h', 'o', 'd']);
    assert("Normal"@ =~= seq!['N', 'o', 'r', 'm', 'a', 'l']);
    assert(plain("InitiatorName"@) && plain("TargetName"@) && plain("SessionType"@) && plain(
        "AuthMethod"@,
    ) && plain("Normal"@));
    lemma_words();
    let pairs = security_pairs(initiator, target);
    assert(clean_pair(pairs[0]) && clean_pair(pairs[1]) && clean_pair(pairs[2]) && clean_pair(
        pairs[3],
    ));
    pairs_round_trip(pairs);
}

proof fn lemma_apply_step(p: NegotiatedParams, q: NegotiatedParams, pairs: Seq<Pair>, i: int)
    requires
        0 <= i < pairs.len(),
        apply_pair(p, pairs[i].0, pairs[i].1) == Ok::<_, LoginError>(q),
    ensures
        apply_pairs(p, pairs.skip(i)) == apply_pairs(q, pairs.skip(i + 1)),
{
    assert(pairs.skip(i)[0] == pairs[i]);
    assert(pairs.skip(i).drop_first() =~= pairs.skip(i + 1));
}

/// A target that answers every key with what was offered changes nothing, but
/// that our send limit becomes the receive limit which it echoed.
#[verifier::rlimit(40)]
pub proof fn echoed_offer_is_accepted(p: NegotiatedParams)
    ensures
        apply_pairs(p, operational_pairs(p)) == (
            (NegotiatedParams {
                max_send_data_segment_length: p.max_recv_data_segment_length,
                ..p
            }),
            None::<LoginError>,
        ),
{
    let pairs = operational_pairs(p);
    let q = NegotiatedParams {
        max_send_data_segment_length: p.max_recv_data_segment_length,
        ..p
    };
    lemma_keys_differ();
    lemma_words();
    number_round_trip(p.max_burst_length as nat, u32::MAX as nat);
    number_round_trip(p.first_burst_length as nat, u32::MAX as nat);
    number_round_trip(p.max_outstanding_r2t as nat, u32::MAX as nat);
    number_round_trip(p.max_connections as nat, u32::MAX as nat);
    number_round_trip(p.error_recovery_level as nat, u8::MAX as nat);
    number_round_trip(p.default_time2wait as nat, u32::MAX as nat);
    number_round_trip(p.default_time2retain as nat, u32::MAX as nat);
    number_round_trip(p.max_recv_data_segment_length as nat, u32::MAX as nat);
    assert(pairs[0].0 == "HeaderDigest"@);
    lemma_apply_step(p, p, pairs, 0);
    assert(pairs[1].0 == "DataDigest"@);
    lemma_apply_step(p, p, pairs, 1);
    assert(pairs[2].0 == "MaxRecvDataSegmentLength"@);
    lemma_apply_step(p, q, pairs, 2);
    assert(pairs[3].0 == "MaxBurstLength"@);
    lemma_apply_step(q, q, pairs, 3);
    assert(pairs[4].0 == "FirstBurstLength"@);
    lemma_apply_step(q, q, pairs, 4);
    assert(pairs[5].0 == "InitialR2T"@);
    lemma_apply_step(q, q, pairs, 5);
    assert(pairs[6].0 == "ImmediateData"@);
    lemma_apply_step(q, q, pairs, 6);
    assert(pairs[7].0 == "MaxOutstandingR2T"@);
    lemma_apply_step(q, q, pairs, 7);
    assert(pairs[8].0 == "MaxConnections"@);
    lemma_apply_step(q, q, pairs, 8);
    assert(pairs[9].0 == "DataPDUInOrder"@);
    lemma_apply_step(q, q, pairs, 9);
    assert(pairs[10].0 == "DataSequenceInOrder"@);
    lemma_apply_step(q, q, pairs, 10);
    assert(pairs[11].0 == "ErrorRecoveryLevel"@);
    lemma_apply_step(q, q, pairs, 11);
    assert(pairs[12].0 == "DefaultTime2Wait"@);
    lemma_apply_step(q, q, pairs, 12);
    assert(pairs[13].0 == "DefaultTime2Retain"@);
    lemma_apply_step(q, q, pairs, 13);
    assert(pairs.skip(0) =~= pairs);
    assert(pairs.skip(14) =~= seq![]);
}

/// A target that agrees leaves a login with no more than that login offered:
/// the outcome is settled on the parameters that were offered, custom ones
/// where there are any, and it never goes beyond them.
pub proof fn login_gets_no_more_than_it_offered(resp: Pdu, p: NegotiatedParams)
    ensures
        operational_outcome(resp, Some(p)) matches Ok((q, _, _)) ==> no_wider(q, p),
        operational_outcome(resp, None) matches Ok((q, _, _)) ==> no_wider(
            q,
            NegotiatedParams::spec_defaults_10g(),
        ),
{
    negotiation_only_narrows(p, kv_pairs(pdu_data(resp)));
    negotiation_only_narrows(NegotiatedParams::spec_defaults_10g(), kv_pairs(pdu_data(resp)));
}

/// A target that agrees without an answer to any key leaves exactly what was
/// offered.
pub proof fn silent_target_leaves_the_offer(resp: Pdu, p: NegotiatedParams)
    requires
        resp.bhs.opcode == Opcode::LoginResponse,
        resp.bhs.raw[36] == 0,
        pdu_data(resp).len() == 0,
    ensures
        operational_outcome(resp, Some(p)) matches Ok((q, _, _)) && q == p,
        operational_outcome(resp, None) matches Ok((q, _, _)) && q
            == NegotiatedParams::spec_defaults_10g(),
{
    lemma_no_data_no_pairs();
    assert(pdu_data(resp) =~= seq![]);
}

/// What is settled is the offer that the target was sent: a target that hands
/// the data of the operational request back leaves the login with the
/// parameters it was started with, the send limit being the one that was handed
/// back.
pub proof fn echoed_request_is_accepted(
    req: Pdu,
    resp: Pdu,
    p: NegotiatedParams,
    isid: Seq<u8>,
    tsih: u16,
    cid: u16,
)
    requires
        is_login_request(
            req,
            isid,
            tsih,
            cid,
            2,
            2,
            1,
            1,
            3,
            text_of_pairs(operational_pairs(offered_params(Some(p)))),
        ),
        resp.bhs.opcode == Opcode::LoginResponse,
        resp.bhs.raw[36] == 0,
        pdu_data(resp) == pdu_data(req),
    ensures
        kv_pairs(pdu_data(req)) == operational_pairs(p),
        operational_outcome(resp, Some(p)) matches Ok((q, _, _)) && q == (NegotiatedParams {
            max_send_data_segment_length: p.max_recv_data_segment_length,
            ..p
        }),
{
    offer_is_read_back(p);
    echoed_offer_is_accepted(p);
}

/// Each phase of a login succeeds just where the target sent a Login Response
/// of class 0, and a refusal is reported with its class and detail. A success
/// hands on what the response says of the session: its handle, the first CmdSN,
/// and the status number that comes after its own.
pub proof fn login_succeeds_where_the_target_agrees(resp: Pdu, custom: Option<NegotiatedParams>)
    ensures
        ({
            let raw = resp.bhs.raw;
            let agreed = resp.bhs.opcode == Opcode::LoginResponse && raw[36] == 0;
            &&& security_outcome(resp) is Ok <==> agreed
            &&& operational_outcome(resp, custom) is Ok ==> agreed
            &&& agreed ==> security_outcome(resp) == Ok::<_, LoginError>(
                (raw[14] * 0x100 + raw[15]) as u16,
            )
            &&& resp.bhs.opcode != Opcode::LoginResponse ==> {
                &&& security_outcome(resp) == Err::<u16, _>(
                    LoginError::UnexpectedOpcode(resp.bhs.opcode),
                )
                &&& operational_outcome(resp, custom) == Err::<(NegotiatedParams, u32, u32), _>(
                    LoginError::UnexpectedOpcode(resp.bhs.opcode),
                )
            }
            &&& resp.bhs.opcode == Opcode::LoginResponse && raw[36] != 0 ==> {
                &&& security_outcome(resp) == Err::<u16, _>(
                    (LoginError::SecurityPhaseFailed {
                        status_class: raw[36],
                        status_detail: raw[37],
                    }),
                )
                &&& operational_outcome(resp, custom) == Err::<(NegotiatedParams, u32, u32), _>(
                    (LoginError::OperationalPhaseFailed {
                        status_class: raw[36],
                        status_detail: raw[37],
                    }),
                )
            }
            &&& operational_outcome(resp, custom) matches Ok((_, cmd_sn, exp_stat_sn)) ==> {
                let stat_sn = raw[24] * 0x100_0000 + raw[25] * 0x1_0000 + raw[26] * 0x100 + raw[27];
                &&& cmd_sn == raw[28] * 0x100_0000 + raw[29] * 0x1_0000 + raw[30] * 0x100 + raw[31]
                &&& exp_stat_sn == (if stat_sn == 0xFFFF_FFFF {
                    0
                } else {
                    stat_sn + 1
                })
            }
        }),
{
}

/// A number that is negotiated is settled on the lesser of both sides, and its
/// key settles nothing else: the value is no more than either side named, and
/// one of them named it. The target's receive limit is taken as it is named,
/// for what we send.
pub proof fn numbers_are_settled_between_both_sides(p: NegotiatedParams, v: nat)
    requires
        v <= u32::MAX,
    ensures
        (apply_pair(p, "MaxBurstLength"@, decimal(v)) matches Ok(q) && q.max_burst_length <= v && q.max_burst_length <= p.max_burst_length && (
        q.max_burst_length == v || q.max_burst_length == p.max_burst_length) && q == (NegotiatedParams { max_burst_length: q.max_burst_length, ..p })),
        (apply_pair(p, "FirstBurstLength"@, decimal(v)) matches Ok(q) && q.first_burst_length <= v && q.first_burst_length <= p.first_burst_length && (
        q.first_burst_length == v || q.first_burst_length == p.first_burst_length) && q == (NegotiatedParams { first_burst_length: q.first_burst_length, ..p })),
        (apply_pair(p, "MaxOutstandingR2T"@, decimal(v)) matches Ok(q) && q.max_outstanding_r2t <= v && q.max_outstanding_r2t <= p.max_outstanding_r2t && (
        q.max_outstanding_r2t == v || q.max_outstanding_r2t == p.max_outstanding_r2t) && q == (NegotiatedParams { max_outstanding_r2t: q.max_outstanding_r2t, ..p })),
        (apply_pair(p, "MaxConnections"@, decimal(v)) matches Ok(q) && q.max_connections <= v && q.max_connections <= p.max_connections && (
        q.max_connections == v || q.max_connections == p.max_connections) && q == (NegotiatedParams { max_connections: q.max_connections, ..p })),
        v <= u8::MAX ==> (apply_pair(p, "ErrorRecoveryLevel"@, decimal(v)) matches Ok(q) && q.error_recovery_level <= v && q.error_recovery_level <= p.error_recovery_level && (
        q.error_recovery_level == v || q.error_recovery_level == p.error_recovery_level) && q == (NegotiatedParams { error_recovery_level: q.error_recovery_level, ..p })),
        (apply_pair(p, "DefaultTime2Wait"@, decimal(v)) matches Ok(q) && q.default_time2wait <= v && q.default_time2wait <= p.default_time2wait && (
        q.default_time2wait == v || q.default_time2wait == p.default_time2wait) && q == (NegotiatedParams { default_time2wait: q.default_time2wait, ..p })),
        (apply_pair(p, "DefaultTime2Retain"@, decimal(v)) matches Ok(q) && q.default_time2retain <= v && q.default_time2retain <= p.default_time2retain && (
        q.default_time2retain == v || q.default_time2retain == p.default_time2retain) && q == (NegotiatedParams { default_time2retain: q.default_time2retain, ..p })),
        apply_pair(p, "MaxRecvDataSegmentLength"@, decimal(v)) == Ok::<_, LoginError>(
            (NegotiatedParams { max_send_data_segment_length: v as u32, ..p }),
        ),
{
    lemma_keys_differ();
    number_round_trip(v, u32::MAX as nat);
    if v <= u8::MAX {
        number_round_trip(v, u8::MAX as nat);
    }
}

/// What is no number fails a key that takes one, and the failure names the key;
/// so does a number that the key cannot hold.
pub proof fn what_is_no_number_fails_its_key(p: NegotiatedParams, value: Seq<char>)
    requires
        parsed_number(value, u32::MAX as nat) is None,
        parsed_number(value, u8::MAX as nat) is None,
    ensures
        apply_pair(p, "MaxBurstLength"@, value) == Err::<NegotiatedParams, _>(
            LoginError::InvalidNumber(NumberKey::MaxBurstLength),
        ),
        apply_pair(p, "FirstBurstLength"@, value) == Err::<NegotiatedParams, _>(
            LoginError::InvalidNumber(NumberKey::FirstBurstLength),
        ),
        apply_pair(p, "MaxOutstandingR2T"@, value) == Err::<NegotiatedParams, _>(
            LoginError::InvalidNumber(NumberKey::MaxOutstandingR2T),
        ),
        apply_pair(p, "MaxConnections"@, value) == Err::<NegotiatedParams, _>(
            LoginError::InvalidNumber(NumberKey::MaxConnections),
        ),
        apply_pair(p, "ErrorRecoveryLevel"@, value) == Err::<NegotiatedParams, _>(
            LoginError::InvalidNumber(NumberKey::ErrorRecoveryLevel),
        ),
        apply_pair(p, "DefaultTime2Wait"@, value) == Err::<NegotiatedParams, _>(
            LoginError::InvalidNumber(NumberKey::DefaultTime2Wait),
        ),
        apply_pair(p, "DefaultTime2Retain"@, value) == Err::<NegotiatedParams, _>(
            LoginError::InvalidNumber(NumberKey::DefaultTime2Retain),
        ),
        apply_pair(p, "MaxRecvDataSegmentLength"@, value) == Err::<NegotiatedParams, _>(
            LoginError::InvalidNumber(NumberKey::MaxRecvDataSegmentLength),
        ),
{
    lemma_keys_differ();
}

/// The yes-or-no keys: the target has to be asked before data is sent where
/// either side wants that, and every other liberty is taken only where both
/// sides agree to it. Each key settles its own value and nothing else.
pub proof fn booleans_are_settled_between_both_sides(p: NegotiatedParams, yes: bool)
    ensures
        ({
            let value = if yes {
                "Yes"@
            } else {
                "No"@
            };
            &&& apply_pair(p, "InitialR2T"@, value) == Ok::<_, LoginError>(
                (NegotiatedParams { initial_r2t: p.initial_r2t || yes, ..p }),
            )
            &&& apply_pair(p, "ImmediateData"@, value) == Ok::<_, LoginError>(
                (NegotiatedParams { immediate_data: p.immediate_data && yes, ..p }),
            )
            &&& apply_pair(p, "DataPDUInOrder"@, value) == Ok::<_, LoginError>(
                (NegotiatedParams { data_pdu_in_order: p.data_pdu_in_order && yes, ..p }),
            )
            &&& apply_pair(p, "DataSequenceInOrder"@, value) == Ok::<_, LoginError>(
                (NegotiatedParams { data_sequence_in_order: p.data_sequence_in_order && yes, ..p }),
            )
        }),
{
    lemma_keys_differ();
    lemma_words();
}

/// A digest is used where the target names it, not used where it names none,
/// and a login fails where it names another.
pub proof fn digests_are_what_the_target_names(p: NegotiatedParams, value: Seq<char>)
    ensures
        ({
            let header = apply_pair(p, "HeaderDigest"@, value);
            let data = apply_pair(p, "DataDigest"@, value);
            &&& value == "CRC32C"@ ==> header == Ok::<_, LoginError>(
                (NegotiatedParams { header_digest: true, ..p }),
            ) && data == Ok::<_, LoginError>((NegotiatedParams { data_digest: true, ..p }))
            &&& value == "None"@ ==> header == Ok::<_, LoginError>(
                (NegotiatedParams { header_digest: false, ..p }),
            ) && data == Ok::<_, LoginError>((NegotiatedParams { data_digest: false, ..p }))
            &&& value != "CRC32C"@ && value != "None"@ ==> header == Err::<NegotiatedParams, _>(
                LoginError::UnsupportedHeaderDigest,
            ) && data == Err::<NegotiatedParams, _>(LoginError::UnsupportedDataDigest)
        }),
{
    lemma_keys_differ();
    lemma_words();
}

/// An answer is kept to, whatever else is answered before and after it: where
/// the login goes on, no number is more than what the target said it may be.
pub proof fn answered_limits_are_kept(p: NegotiatedParams, pairs: Seq<Pair>, i: int, v: nat)
    requires
        0 <= i < pairs.len(),
        parsed_number(pairs[i].1, u32::MAX as nat) == Some(v),
        apply_pairs(p, pairs).1 is None,
    ensures
        ({
            let q = apply_pairs(p, pairs).0;
            let key = pairs[i].0;
            &&& key == "MaxBurstLength"@ ==> q.max_burst_length <= v
            &&& key == "FirstBurstLength"@ ==> q.first_burst_length <= v
            &&& key == "MaxOutstandingR2T"@ ==> q.max_outstanding_r2t <= v
            &&& key == "MaxConnections"@ ==> q.max_connections <= v
            &&& key == "DefaultTime2Wait"@ ==> q.default_time2wait <= v
            &&& key == "DefaultTime2Retain"@ ==> q.default_time2retain <= v
        }),
    decreases pairs.len(),
{
    lemma_keys_differ();
    let q = apply_pair(p, pairs[0].0, pairs[0].1)->Ok_0;
    let rest = pairs.drop_first();
    if i > 0 {
        assert(rest[i - 1] == pairs[i]);
        answered_limits_are_kept(q, rest, i - 1, v);
    } else {
        negotiation_only_narrows(q, rest);
    }
}

/// The defaults are an offer that can stand as a whole: the first burst is part
/// of a burst, a segment is no longer than a burst, and one connection serves
/// the session without error recovery beyond starting over.
pub proof fn default_offer_is_consistent()
    ensures
        ({
            let p = NegotiatedParams::spec_defaults_10g();
            &&& 512 <= p.first_burst_length <= p.max_burst_length < 0x100_0000
            &&& 512 <= p.max_recv_data_segment_length <= p.max_burst_length
            &&& p.max_send_data_segment_length == p.max_recv_data_segment_length
            &&& p.max_connections == 1
            &&& p.error_recovery_level == 0
            &&& 1 <= p.max_outstanding_r2t <= 65535
            &&& p.default_time2wait <= p.default_time2retain <= 3600
        }),
{
}

/// A login request asks for what it says: the stages stand in their bits of the
/// flags with the transit bit over them, the length is that of the text, and
/// the text is what a reader of the data finds.
pub proof fn login_request_names_its_stages(
    pdu: Pdu,
    isid: Seq<u8>,
    tsih: u16,
    cid: u16,
    itt: u32,
    cmd_sn: u32,
    exp_stat_sn: u32,
    csg: int,
    nsg: int,
    text: Seq<char>,
)
    requires
        is_login_request(pdu, isid, tsih, cid, itt, cmd_sn, exp_stat_sn, csg, nsg, text),
        0 <= csg < 4,
        0 <= nsg < 4,
        encode_utf8(text).len() <= u32::MAX,
    ensures
        pdu.bhs.opcode == Opcode::LoginRequest,
        pdu.bhs.immediate,
        pdu.bhs.flags >= 0x80,
        (pdu.bhs.flags % 0x80) / 4 == csg,
        pdu.bhs.flags % 4 == nsg,
        pdu.bhs.data_segment_length == pdu_data(pdu).len(),
        vstd::utf8::decode_utf8(pdu_data(pdu)) == text,
        pdu.bhs.raw[14] * 0x100 + pdu.bhs.raw[15] == tsih,
        pdu.bhs.raw[20] * 0x100 + pdu.bhs.raw[21] == cid,
{
    vstd::utf8::encode_utf8_decode_utf8(text);
}

/// A login is of one piece: the request that follows the security phase carries
/// the handle that the target gave and offers what the login was started with,
/// and the login that completes has that handle and is settled on that offer. A
/// response that is not agreed to ends it with the error of its phase.
pub proof fn login_is_of_one_piece(
    start: LoginExchange,
    middle: LoginExchange,
    end: LoginExchange,
    isid: Seq<u8>,
    first: Pdu,
    second: Pdu,
    step: Result<LoginStep, LoginError>,
    step2: Result<LoginStep, LoginError>,
    p: NegotiatedParams,
)
    requires
        start.tsih is None,
        start.custom_params == Some(p),
        middle.takes(start, isid, first, step),
        step is Ok,
        end.takes(middle, isid, second, step2),
    ensures
        first.bhs.opcode == Opcode::LoginResponse && first.bhs.raw[36] == 0,
        step matches Ok(LoginStep::Send(req)) && {
            &&& req.bhs.raw[14] == first.bhs.raw[14] && req.bhs.raw[15] == first.bhs.raw[15]
            &&& be16(req.bhs.raw@, 20) == start.cid
            &&& kv_pairs(pdu_data(req)) == operational_pairs(p)
        },
        second.bhs.opcode != Opcode::LoginResponse || second.bhs.raw[36] != 0 ==> step2 is Err,
        step2 is Ok ==> (step2 matches Ok(LoginStep::Done(result)) && {
            &&& result.tsih == first.bhs.raw[14] * 0x100 + first.bhs.raw[15]
            &&& no_wider(result.negotiated, p)
            &&& result.initial_cmd_sn == be32(second.bhs.raw@, 28)
        }),
{
    offer_is_read_back(p);
    login_gets_no_more_than_it_offered(second, p);
}

/// The security phase names both sides, each under its own key, and asks for a
/// normal session without authentication.
pub proof fn security_phase_names_both_sides(initiator: Seq<char>, target: Seq<char>)
    ensures
        ({
            let pairs = security_pairs(initiator, target);
            &&& pairs.len() == 4
            &&& pairs.contains(("InitiatorName"@, initiator))
            &&& pairs.contains(("TargetName"@, target))
            &&& pairs.contains(("SessionType"@, "Normal"@))
            &&& pairs.contains(("AuthMethod"@, "None"@))
        }),
{
    let pairs = security_pairs(initiator, target);
    assert(pairs[0] == ("InitiatorName"@, initiator));
    assert(pairs[1] == ("TargetName"@, target));
    assert(pairs[2] == ("SessionType"@, "Normal"@));
    assert(pairs[3] == ("AuthMethod"@, "None"@));
}

} // verus!
