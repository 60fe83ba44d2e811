//! The logic of a native IMS / VoLTE runtime: SIP registration with AKA, the USIM commands behind
//! it, IPsec states, short messages over IMS, the secondary QMI endpoint and the supervision of
//! its bearer.
//!
//! Everything here is decided on plain values. What talks to the network, to other programs and
//! to the file system drives the tasks of [`sms_recording`], [`secondary_qmi`], [`volte`],
//! [`bearer`], [`registration`] and [`supervisor`], and hands back what came of them.
//!
//! What holds of all this is stated as laws: beside the functions where they concern one module, and
//! in the modules whose names end in `_laws` where a reading undoes a writing or several steps
//! belong together.

pub mod externals;
pub mod text;
pub mod number;
pub mod text_laws;
pub mod ipv6;
pub mod ipv6_laws;
pub mod error;
pub mod command;
pub mod ims_sip;
pub mod ims_uim;
pub mod ims_ipsec;
pub mod uim_laws;
pub mod sip_headers;
pub mod ims_sms;
pub mod sip_encoding;
pub mod sip_laws;
pub mod answer_laws;
pub mod challenge_laws;
pub mod pcscf_laws;
pub mod sms_encoding;
pub mod sms_laws;
pub mod sms_reception;
pub mod sms_recording;
pub mod reception_laws;
pub mod secondary_qmi;
pub mod secondary_laws;
pub mod volte;
pub mod bearer;
pub mod bearer_laws;
pub mod outcome_laws;
pub mod registration;
pub mod registration_laws;
pub mod supervisor;
pub mod supervisor_laws;
