use vstd::prelude::*;

use crate::error::PFError;

verus! {

/// The transport-level command for a CBOR exchange.
pub const CTAPHID_CBOR: u8 = 0x10;

/// The transport-level command that opens a channel.
pub const CTAPHID_INIT: u8 = 0x06;

/// The transport-level vendor command that carries the vendor CBOR payloads;
/// it lies in the range the transport reserves for vendors, distinct from
/// every standard command.
pub const CTAPHID_VENDOR_CBOR: u8 = 0x40;

/// The CTAP command byte that requests GetInfo, sent as the whole payload of
/// a standard CBOR exchange.
pub const CTAP_GET_INFO: u8 = 0x04;

/// The most payload one message can carry: 57 bytes ride in the initial
/// report and 59 in each of at most 128 continuation reports.
pub const MAX_MESSAGE_PAYLOAD: usize = 7609;

/// A channel id in report order: big-endian.
pub open spec fn spec_cid_bytes(cid: u32) -> Seq<u8> {
    seq![
        (cid / 0x1000000) as u8,
        ((cid / 0x10000) % 256) as u8,
        ((cid / 256) % 256) as u8,
        (cid % 256) as u8,
    ]
}

/// A report padded with zeros to the fixed 64-byte size.
pub open spec fn spec_pad64(s: Seq<u8>) -> Seq<u8>
    recommends
        s.len() <= 64,
{
    s + Seq::new((64 - s.len()) as nat, |i: int| 0u8)
}

/// The initial report of a message: channel id, command with the
/// initialization bit, the payload length big-endian, then the first payload
/// bytes, zero-padded.
pub open spec fn spec_init_report(cid: u32, cmd: u8, payload: Seq<u8>) -> Seq<u8>
    recommends
        cmd < 0x80,
        payload.len() <= 0xFFFF,
{
    spec_pad64(
        spec_cid_bytes(cid) + seq![
            (cmd + 0x80) as u8,
            ((payload.len() as int / 256) % 256) as u8,
            (payload.len() as int % 256) as u8,
        ] + if payload.len() <= 57 {
            payload
        } else {
            payload.take(57)
        },
    )
}

/// The continuation reports: channel id, a sequence number counting from
/// zero, then the next payload bytes, zero-padded.
pub open spec fn spec_cont_reports(cid: u32, rest: Seq<u8>, seqno: u8) -> Seq<Seq<u8>>
    decreases rest.len(),
{
    if rest.len() == 0 {
        Seq::empty()
    } else if rest.len() <= 59 {
        seq![spec_pad64(spec_cid_bytes(cid) + seq![seqno] + rest)]
    } else {
        seq![spec_pad64(spec_cid_bytes(cid) + seq![seqno] + rest.take(59))]
            + spec_cont_reports(cid, rest.skip(59), (seqno + 1) as u8)
    }
}

/// A whole framed message: the initial report, then continuations for
/// whatever payload is left.
pub open spec fn spec_frames(cid: u32, cmd: u8, payload: Seq<u8>) -> Seq<Seq<u8>> {
    if payload.len() <= 57 {
        seq![spec_init_report(cid, cmd, payload)]
    } else {
        seq![spec_init_report(cid, cmd, payload)] + spec_cont_reports(cid, payload.skip(57), 0)
    }
}

/// The view of a built report list.
pub open spec fn spec_report_views(v: Seq<Vec<u8>>) -> Seq<Seq<u8>> {
    v.map_values(|r: Vec<u8>| r@)
}

fn build_report(prefix: &Vec<u8>, data: &Vec<u8>, from: usize, to: usize) -> (r: Vec<u8>)
    requires
        prefix@.len() + to - from <= 64,
        from <= to <= data@.len(),
    ensures
        r@ == spec_pad64(prefix@ + data@.subrange(from as int, to as int)),
        r@.len() == 64,
{
    let mut rep: Vec<u8> = Vec::new();
    let mut i: usize = 0;
    proof {
        assert(rep@ =~= prefix@.subrange(0, 0));
    }
    while i < prefix.len()
        invariant
            i <= prefix@.len(),
            rep@ == prefix@.subrange(0, i as int),
        decreases prefix@.len() - i,
    {
        rep.push(prefix[i]);
        proof {
            assert(rep@ =~= prefix@.subrange(0, i as int + 1));
        }
        i += 1;
    }
    proof {
        assert(prefix@.subrange(0, prefix@.len() as int) =~= prefix@);
        assert(rep@ + data@.subrange(from as int, from as int) =~= rep@);
    }
    let mut k: usize = from;
    while k < to
        invariant
            from <= k <= to,
            to <= data@.len(),
            rep@ == prefix@ + data@.subrange(from as int, k as int),
        decreases to - k,
    {
        rep.push(data[k]);
        proof {
            assert(rep@ =~= prefix@ + data@.subrange(from as int, k as int + 1));
        }
        k += 1;
    }
    let ghost base = prefix@ + data@.subrange(from as int, to as int);
    while rep.len() < 64
        invariant
            base.len() <= rep@.len() <= 64,
            base.len() <= 64,
            rep@ == base + Seq::new((rep@.len() - base.len()) as nat, |x: int| 0u8),
        decreases 64 - rep@.len(),
    {
        rep.push(0);
        proof {
            assert(rep@ =~= base + Seq::new((rep@.len() - base.len()) as nat, |x: int| 0u8));
        }
    }
    proof {
        assert(rep@ =~= spec_pad64(base));
    }
    rep
}

fn cid_prefix(cid: u32) -> (r: Vec<u8>)
    ensures
        r@ == spec_cid_bytes(cid),
{
    let mut p: Vec<u8> = Vec::new();
    p.push((cid / 0x1000000) as u8);
    p.push(((cid / 0x10000) % 256) as u8);
    p.push(((cid / 256) % 256) as u8);
    p.push((cid % 256) as u8);
    proof {
        assert(p@ =~= spec_cid_bytes(cid));
    }
    p
}

/// Splits one message into the fixed-size reports that go over the wire.  A
/// payload too long for the report sequence is refused before anything is
/// written.
pub fn frame_request(cid: u32, cmd: u8, payload: &Vec<u8>) -> (r: Result<Vec<Vec<u8>>, PFError>)
    requires
        cmd < 0x80,
    ensures
        r is Ok <==> payload@.len() <= MAX_MESSAGE_PAYLOAD,
        r matches Ok(v) ==> spec_report_views(v@) == spec_frames(cid, cmd, payload@),
        r matches Err(e) ==> e matches PFError::Io(_),
{
    if payload.len() > MAX_MESSAGE_PAYLOAD {
        return Err(PFError::Io("payload too long for one message".to_owned()));
    }
    let mut reports: Vec<Vec<u8>> = Vec::new();
    let mut prefix = cid_prefix(cid);
    prefix.push(cmd + 0x80);
    prefix.push(((payload.len() / 256) % 256) as u8);
    prefix.push((payload.len() % 256) as u8);
    let first_end = if payload.len() < 57 {
        payload.len()
    } else {
        57
    };
    let rep0 = build_report(&prefix, payload, 0, first_end);
    proof {
        if payload@.len() <= 57 {
            assert(payload@.subrange(0, first_end as int) =~= payload@);
        } else {
            assert(payload@.subrange(0, first_end as int) =~= payload@.take(57));
        }
        assert(prefix@ =~= spec_cid_bytes(cid) + seq![
            (cmd + 0x80) as u8,
            ((payload@.len() as int / 256) % 256) as u8,
            (payload@.len() as int % 256) as u8,
        ]);
        assert(rep0@ == spec_init_report(cid, cmd, payload@));
    }
    reports.push(rep0);
    if payload.len() <= 57 {
        proof {
            assert(spec_report_views(reports@) =~= spec_frames(cid, cmd, payload@));
        }
        return Ok(reports);
    }
    let mut offset: usize = 57;
    let mut seqno: u8 = 0;
    proof {
        assert(spec_report_views(reports@) =~= seq![spec_init_report(cid, cmd, payload@)]);
    }
    while offset < payload.len()
        invariant
            cmd < 0x80,
            57 <= offset < payload@.len(),
            payload@.len() <= MAX_MESSAGE_PAYLOAD,
            offset as int == 57 + 59 * (seqno as int),
            spec_report_views(reports@) + spec_cont_reports(
                cid,
                payload@.skip(offset as int),
                seqno,
            ) == spec_frames(cid, cmd, payload@),
        decreases payload@.len() - offset,
    {
        let remaining = payload.len() - offset;
        let end = if remaining <= 59 {
            payload.len()
        } else {
            offset + 59
        };
        let mut cprefix = cid_prefix(cid);
        cprefix.push(seqno);
        let rep = build_report(&cprefix, payload, offset, end);
        let ghost rest = payload@.skip(offset as int);
        proof {
            assert(cprefix@ =~= spec_cid_bytes(cid) + seq![seqno]);
            if remaining <= 59 {
                assert(payload@.subrange(offset as int, end as int) =~= rest);
            } else {
                assert(payload@.subrange(offset as int, end as int) =~= rest.take(59));
                assert(rest.skip(59) =~= payload@.skip(end as int));
            }
        }
        let ghost views_before = spec_report_views(reports@);
        reports.push(rep);
        proof {
            assert(spec_report_views(reports@) =~= views_before + seq![rep@]);
            if remaining <= 59 {
                assert(spec_cont_reports(cid, rest, seqno) =~= seq![rep@]);
                assert(payload@.skip(payload@.len() as int).len() == 0);
            } else {
                assert(spec_cont_reports(cid, rest, seqno) =~= seq![rep@] + spec_cont_reports(
                    cid,
                    payload@.skip(end as int),
                    (seqno + 1) as u8,
                ));
            }
        }
        if remaining <= 59 {
            proof {
                assert(spec_report_views(reports@) =~= spec_frames(cid, cmd, payload@));
            }
            return Ok(reports);
        }
        offset = end;
        seqno = seqno + 1;
    }
    proof {
        assert(false);
    }
    Err(PFError::Io("payload too long for one message".to_owned()))
}

/// What the continuation reports from index `i` onward contribute: each must
/// be full-size, on the right channel and in sequence; their data fields are
/// concatenated.
pub open spec fn spec_cont_data(reports: Seq<Seq<u8>>, cid: u32, i: int) -> Option<Seq<u8>>
    decreases reports.len() - i,
{
    if i < 1 || i >= reports.len() {
        Some(Seq::empty())
    } else {
        let rep = reports[i];
        if rep.len() != 64 || rep.take(4) != spec_cid_bytes(cid) || rep[4] as int != i - 1 {
            None
        } else {
            match spec_cont_data(reports, cid, i + 1) {
                Some(d) => Some(rep.subrange(5, 64) + d),
                None => None,
            }
        }
    }
}

/// What reassembly reads out of a report sequence: the command of the
/// initial report and the declared number of payload bytes, provided the
/// report count fits the declared length exactly and every report checks
/// out.
pub open spec fn spec_reassemble(reports: Seq<Seq<u8>>, cid: u32) -> Option<(u8, Seq<u8>)> {
    if reports.len() == 0 {
        None
    } else {
        let r0 = reports[0];
        if r0.len() != 64 || r0.take(4) != spec_cid_bytes(cid) || r0[4] < 0x80 {
            None
        } else {
            let cmd = (r0[4] - 0x80) as u8;
            let bcnt = r0[5] * 256 + r0[6];
            if bcnt <= 57 {
                if reports.len() != 1 {
                    None
                } else {
                    Some((cmd, r0.subrange(7, 7 + bcnt)))
                }
            } else {
                let ncont = (bcnt - 57 + 58) / 59;
                if reports.len() != 1 + ncont {
                    None
                } else {
                    match spec_cont_data(reports, cid, 1) {
                        Some(d) => Some((cmd, (r0.subrange(7, 64) + d).take(bcnt))),
                        None => None,
                    }
                }
            }
        }
    }
}

fn report_has_cid(rep: &Vec<u8>, cid: u32) -> (r: bool)
    requires
        rep@.len() >= 4,
    ensures
        r == (rep@.take(4) == spec_cid_bytes(cid)),
{
    let eq = rep[0] == (cid / 0x1000000) as u8 && rep[1] == ((cid / 0x10000) % 256) as u8
        && rep[2] == ((cid / 256) % 256) as u8 && rep[3] == (cid % 256) as u8;
    proof {
        if eq {
            assert(rep@.take(4) =~= spec_cid_bytes(cid));
        } else {
            if rep@.take(4) == spec_cid_bytes(cid) {
                assert(rep@.take(4)[0] == rep@[0]);
                assert(rep@.take(4)[1] == rep@[1]);
                assert(rep@.take(4)[2] == rep@[2]);
                assert(rep@.take(4)[3] == rep@[3]);
            }
        }
    }
    eq
}

/// The payload length a full-size initial report declares; nothing for a
/// continuation report or a short one.
pub fn init_payload_len(rep: &Vec<u8>) -> (r: Option<u16>)
    ensures
        r == (if rep@.len() == 64 && rep@[4] >= 0x80 {
            Some((rep@[5] * 256 + rep@[6]) as u16)
        } else {
            None::<u16>
        }),
{
    if rep.len() == 64 && rep[4] >= 0x80 {
        Some((rep[5] as u16) * 256 + (rep[6] as u16))
    } else {
        None
    }
}

/// Puts a message read report by report back together: checks the channel,
/// the initialization bit, the sequence numbers and the report count, and
/// hands back the command and the declared payload bytes.
pub fn reassemble_response(reports: &Vec<Vec<u8>>, cid: u32) -> (r: Result<(u8, Vec<u8>), PFError>)
    ensures
        match r {
            Ok((cmd, p)) => spec_reassemble(spec_report_views(reports@), cid) == Some((cmd, p@)),
            Err(_) => spec_reassemble(spec_report_views(reports@), cid) is None,
        },
        r matches Err(e) ==> e matches PFError::Io(_),
{
    let ghost views = spec_report_views(reports@);
    if reports.len() == 0 {
        return Err(PFError::Io("no report received".to_owned()));
    }
    let r0 = &reports[0];
    proof {
        assert(views[0] == r0@);
    }
    if r0.len() != 64 {
        return Err(PFError::Io("malformed report".to_owned()));
    }
    if !report_has_cid(r0, cid) {
        return Err(PFError::Io("response on a foreign channel".to_owned()));
    }
    if r0[4] < 0x80 {
        return Err(PFError::Io("response starts with a continuation report".to_owned()));
    }
    let cmd = r0[4] - 0x80;
    let bcnt: usize = (r0[5] as usize) * 256 + (r0[6] as usize);
    if bcnt <= 57 {
        if reports.len() != 1 {
            return Err(PFError::Io("unexpected report count".to_owned()));
        }
        let payload = vstd::slice::slice_to_vec(
            vstd::slice::slice_subrange(r0.as_slice(), 7, 7 + bcnt),
        );
        proof {
            assert(payload@ =~= r0@.subrange(7, 7 + bcnt as int));
        }
        return Ok((cmd, payload));
    }
    let ncont = (bcnt - 57 + 58) / 59;
    if reports.len() != 1 + ncont {
        return Err(PFError::Io("unexpected report count".to_owned()));
    }
    let mut data = vstd::slice::slice_to_vec(vstd::slice::slice_subrange(r0.as_slice(), 7, 64));
    let ghost head = r0@.subrange(7, 64);
    proof {
        assert(data@ =~= head);
        assert(data@.skip(57) =~= Seq::<u8>::empty());
        match spec_cont_data(views, cid, 1) {
            Some(rest) => {
                assert(data@.skip(57) + rest =~= rest);
            },
            None => {},
        }
    }
    let n = reports.len();
    let mut i: usize = 1;
    while i < n
        invariant
            1 <= i <= n,
            n == reports@.len(),
            views == spec_report_views(reports@),
            head == views[0].subrange(7, 64),
            views[0].len() == 64,
            data@.len() == 57 + 59 * (i - 1),
            data@.take(57) == head,
            match spec_cont_data(views, cid, i as int) {
                Some(rest) => spec_cont_data(views, cid, 1) == Some(data@.skip(57) + rest),
                None => spec_cont_data(views, cid, 1) is None,
            },
        decreases n - i,
    {
        let rep = &reports[i];
        proof {
            assert(views[i as int] == rep@);
        }
        if rep.len() != 64 {
            return Err(PFError::Io("malformed report".to_owned()));
        }
        if !report_has_cid(rep, cid) {
            return Err(PFError::Io("response on a foreign channel".to_owned()));
        }
        if !(rep[4] as usize == i - 1) {
            return Err(PFError::Io("continuation out of sequence".to_owned()));
        }
        let mut chunk = vstd::slice::slice_to_vec(
            vstd::slice::slice_subrange(rep.as_slice(), 5, 64),
        );
        let ghost data_before = data@;
        data.append(&mut chunk);
        proof {
            assert(data@.take(57) =~= data_before.take(57));
            assert(data@.skip(57) =~= data_before.skip(57) + rep@.subrange(5, 64));
            match spec_cont_data(views, cid, i as int + 1) {
                Some(rest) => {
                    assert(data_before.skip(57) + (rep@.subrange(5, 64) + rest) =~= data@.skip(57)
                        + rest);
                },
                None => {},
            }
        }
        i += 1;
    }
    proof {
        assert(spec_cont_data(views, cid, n as int) == Some(Seq::<u8>::empty()));
        assert(data@.skip(57) + Seq::<u8>::empty() =~= data@.skip(57));
        assert(spec_cont_data(views, cid, 1) == Some(data@.skip(57)));
        assert(59 * ((bcnt - 57 + 58) / 59) >= bcnt - 57) by {
            assert((bcnt - 57 + 58) == 59 * ((bcnt - 57 + 58) / 59) + (bcnt - 57 + 58) % 59);
        };
        assert(head + data@.skip(57) =~= data@);
    }
    let payload = vstd::slice::slice_to_vec(
        vstd::slice::slice_subrange(data.as_slice(), 0, bcnt),
    );
    proof {
        assert(payload@ =~= data@.take(bcnt as int));
        assert((views[0].subrange(7, 64) + data@.skip(57)).take(bcnt as int) =~= payload@);
    }
    Ok((cmd, payload))
}

proof fn lemma_cont_len(cid: u32, rest: Seq<u8>, seqno: u8)
    ensures
        spec_cont_reports(cid, rest, seqno).len() == (rest.len() + 58) / 59,
    decreases rest.len(),
{
    if rest.len() > 59 {
        lemma_cont_len(cid, rest.skip(59), (seqno + 1) as u8);
        assert((rest.len() - 59 + 58) / 59 + 1 == (rest.len() + 58) / 59) by (nonlinear_arith)
            requires
                rest.len() > 59,
        ;
    }
}

#[verifier::rlimit(60)]
proof fn lemma_cont_data_reads_back(cid: u32, reports: Seq<Seq<u8>>, i: int, rest: Seq<u8>)
    requires
        1 <= i <= reports.len(),
        rest.len() > 0,
        reports.len() - i == (rest.len() + 58) / 59,
        reports.subrange(i, reports.len() as int) == spec_cont_reports(
            cid,
            rest,
            (i - 1) as u8,
        ),
        i - 1 + (rest.len() + 58) / 59 <= 128,
    ensures
        spec_cont_data(reports, cid, i) matches Some(d) && d.len() == 59 * ((rest.len() + 58)
            / 59) && d.take(rest.len() as int) == rest,
    decreases rest.len(),
{
    let count = (rest.len() + 58) / 59;
    assert(count >= 1);
    let tail = reports.subrange(i, reports.len() as int);
    let rep = reports[i];
    assert(rep == tail[0]);
    let seqno = (i - 1) as u8;
    if rest.len() <= 59 {
        assert(count == 1);
        let body = spec_cid_bytes(cid) + seq![seqno] + rest;
        assert(rep == spec_pad64(body));
        assert(rep.len() == 64);
        assert(rep.take(4) =~= spec_cid_bytes(cid));
        assert(rep[4] == seqno);
        assert(seqno as int == i - 1);
        assert(i + 1 > reports.len() - 1);
        assert(spec_cont_data(reports, cid, i + 1) == Some(Seq::<u8>::empty()));
        let d = rep.subrange(5, 64);
        assert(spec_cont_data(reports, cid, i) == Some(d + Seq::<u8>::empty()));
        assert(d + Seq::<u8>::empty() =~= d);
        assert(d.len() == 59);
        assert(d.take(rest.len() as int) =~= rest);
    } else {
        let body = spec_cid_bytes(cid) + seq![seqno] + rest.take(59);
        assert(rep == spec_pad64(body));
        assert(rep.len() == 64);
        assert(rep.take(4) =~= spec_cid_bytes(cid));
        assert(rep[4] == seqno);
        assert(seqno as int == i - 1);
        let rest2 = rest.skip(59);
        assert((rest2.len() + 58) / 59 + 1 == count) by (nonlinear_arith)
            requires
                rest.len() > 59,
                rest2.len() == rest.len() - 59,
                count == (rest.len() + 58) / 59,
        ;
        let s2 = (seqno + 1) as u8;
        assert(s2 as int == i);
        let ctail = spec_cont_reports(cid, rest2, s2);
        assert(tail == seq![rep] + ctail);
        assert(ctail.len() == tail.len() - 1);
        assert forall|k: int| 0 <= k < ctail.len() implies #[trigger] reports.subrange(
            i + 1,
            reports.len() as int,
        )[k] == ctail[k] by {
            assert(reports.subrange(i + 1, reports.len() as int)[k] == reports[i + 1 + k]);
            assert(tail[k + 1] == reports[i + 1 + k]);
            assert(tail[k + 1] == (seq![rep] + ctail)[k + 1]);
            assert((seq![rep] + ctail)[k + 1] == ctail[k]);
        };
        assert(reports.subrange(i + 1, reports.len() as int) =~= ctail);
        assert(((i + 1) - 1) as u8 == s2);
        lemma_cont_data_reads_back(cid, reports, i + 1, rest2);
        let d2 = spec_cont_data(reports, cid, i + 1).unwrap();
        let d = rep.subrange(5, 64) + d2;
        assert(spec_cont_data(reports, cid, i) == Some(d));
        assert(rep.subrange(5, 64) =~= rest.take(59));
        assert(d.len() == 59 * count);
        assert(d.take(rest.len() as int) =~= rest) by {
            assert(d2.take(rest2.len() as int) == rest2);
            assert forall|k: int| 0 <= k < rest.len() implies d.take(rest.len() as int)[k]
                == rest[k] by {
                if k < 59 {
                    assert(d[k] == rest.take(59)[k]);
                } else {
                    assert(d[k] == d2[k - 59]);
                    assert(d2[k - 59] == d2.take(rest2.len() as int)[k - 59]);
                    assert(rest2[k - 59] == rest[k]);
                }
            };
        };
    }
}

/// Law: the transport round trip.  For every command and every payload one
/// message can carry, reading the reports `frame_request` builds hands back
/// exactly that command and payload.
#[verifier::rlimit(60)]
pub proof fn lemma_hid_round_trip(cid: u32, cmd: u8, payload: Seq<u8>)
    requires
        cmd < 0x80,
        payload.len() <= MAX_MESSAGE_PAYLOAD,
    ensures
        spec_reassemble(spec_frames(cid, cmd, payload), cid) == Some((cmd, payload)),
{
    let frames = spec_frames(cid, cmd, payload);
    let len = payload.len() as int;
    let header = spec_cid_bytes(cid) + seq![
        (cmd + 0x80) as u8,
        ((len / 256) % 256) as u8,
        (len % 256) as u8,
    ];
    let first_chunk = if payload.len() <= 57 {
        payload
    } else {
        payload.take(57)
    };
    let r0 = spec_pad64(header + first_chunk);
    assert(frames[0] == r0);
    assert(r0.len() == 64);
    assert(r0.take(4) =~= spec_cid_bytes(cid));
    assert(r0[4] == (cmd + 0x80) as u8);
    assert(r0[4] >= 0x80);
    assert((r0[4] - 0x80) as u8 == cmd);
    assert(r0[5] == ((len / 256) % 256) as u8);
    assert(r0[6] == (len % 256) as u8);
    let bcnt = r0[5] * 256 + r0[6];
    assert(bcnt == len);
    if payload.len() <= 57 {
        assert(frames.len() == 1);
        assert(r0.subrange(7, 7 + bcnt) =~= payload);
    } else {
        lemma_cont_len(cid, payload.skip(57), 0);
        assert(frames.len() == 1 + (len - 57 + 58) / 59);
        assert(frames.subrange(1, frames.len() as int) =~= spec_cont_reports(
            cid,
            payload.skip(57),
            0,
        ));
        assert((len - 57 + 58) / 59 <= 128) by (nonlinear_arith)
            requires
                57 < len <= 7609,
        ;
        lemma_cont_data_reads_back(cid, frames, 1, payload.skip(57));
        let d = spec_cont_data(frames, cid, 1).unwrap();
        assert(r0.subrange(7, 64) =~= payload.take(57));
        assert((r0.subrange(7, 64) + d).take(bcnt) =~= payload) by {
            assert(d.take((len - 57) as int) == payload.skip(57));
            assert forall|k: int| 0 <= k < len implies (r0.subrange(7, 64) + d).take(bcnt)[k]
                == payload[k] by {
                if k < 57 {
                    assert((r0.subrange(7, 64) + d)[k] == payload.take(57)[k]);
                } else {
                    assert((r0.subrange(7, 64) + d)[k] == d[k - 57]);
                    assert(d[k - 57] == d.take((len - 57) as int)[k - 57]);
                    assert(payload.skip(57)[k - 57] == payload[k]);
                }
            };
        };
    }
}

/// What a channel-open response yields: when the payload echoes the nonce,
/// the four bytes after it are the newly assigned channel id, big-endian.
pub open spec fn spec_init_response_cid(p: Seq<u8>, nonce: Seq<u8>) -> Option<u32> {
    if p.len() >= 12 && p.take(8) == nonce {
        Some((p[8] * 0x1000000 + p[9] * 0x10000 + p[10] * 256 + p[11]) as u32)
    } else {
        None
    }
}

/// Reads the channel id out of a channel-open response, provided the echoed
/// nonce matches the one sent.
pub fn init_response_cid(p: &Vec<u8>, nonce: &Vec<u8>) -> (r: Option<u32>)
    requires
        nonce@.len() == 8,
    ensures
        r == spec_init_response_cid(p@, nonce@),
{
    if p.len() < 12 {
        return None;
    }
    let mut ok = true;
    let ghost mut bad: int = 0;
    let mut i: usize = 0;
    while i < 8
        invariant
            i <= 8,
            p@.len() >= 12,
            nonce@.len() == 8,
            ok ==> forall|k: int| 0 <= k < i ==> p@[k] == nonce@[k],
            !ok ==> 0 <= bad < 8 && p@[bad] != nonce@[bad],
        decreases 8 - i,
    {
        if p[i] != nonce[i] {
            ok = false;
            proof {
                bad = i as int;
            }
        }
        i += 1;
    }
    proof {
        if ok {
            assert(p@.take(8) =~= nonce@);
        } else {
            assert(p@.take(8)[bad] == p@[bad]);
            assert(p@.take(8) != nonce@);
        }
    }
    if !ok {
        return None;
    }
    Some(
        (p[8] as u32) * 0x1000000 + (p[9] as u32) * 0x10000 + (p[10] as u32) * 256 + (
        p[11] as u32),
    )
}

} // verus!
