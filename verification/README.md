# simadmin_ims

The verified logic of a native IMS / VoLTE runtime for a modem with a secondary QMI endpoint.

- `src/` is the library. Every function in it is verified with Verus.
  - `ims_sip`, `sip_headers`, `sip_encoding`: SIP requests, responses and messages.
  - `ims_uim`: the USIM commands and answers of AKA authentication.
  - `ims_ipsec`: ESP security associations.
  - `ims_sms`, `sms_encoding`, `sms_reception`, `sms_recording`: short messages in SIP messages,
    from the packet to the record.
  - `secondary_qmi`: the preparation of the secondary endpoint.
  - `volte`, `bearer`, `registration`, `supervisor`: the bearer on that endpoint, the registration
    on it and what keeps both up.
  - `text`, `number`, `ipv6`, `command`, `error`: what the others are written with.
  - `externals`: the functions of other crates and of the standard library that are trusted.
- `tests/` runs the library on concrete values.
- `app/` is the runtime around it: sockets, processes, files and D-Bus.

Functions named `law_...` state what holds of several functions together, for all inputs.
