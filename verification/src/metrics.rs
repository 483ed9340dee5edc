//! Prometheus text-format rendering of the metrics snapshot.

use vstd::prelude::*;

use crate::pipeline::MetricsState;
use crate::text;

verus! {

/// The metrics page for a snapshot.
pub open spec fn page(m: MetricsState) -> Seq<char> {
    "# HELP zqfw_packets_total Packets evaluated by the probes.\n# TYPE zqfw_packets_total counter\nzqfw_packets_passed_total "@
        + text::dec(m.pass as nat) + "\nzqfw_packets_dropped_total "@ + text::dec(m.drop as nat)
        + "\n# HELP zqfw_block_hits_total Quarantined flows that hit the blocklist.\n# TYPE zqfw_block_hits_total counter\nzqfw_block_hits_total "@
        + text::dec(m.block_hits as nat) + "\nzqfw_new_flows_total "@ + text::dec(
        m.new_flows as nat,
    ) + "\nzqfw_malformed_total "@ + text::dec(m.malformed as nat) + "\nzqfw_events_lost_total "@
        + text::dec(m.events_lost as nat)
        + "\n# HELP zqfw_sessions Current in-memory sessions.\n# TYPE zqfw_sessions gauge\nzqfw_sessions "@
        + text::dec(m.sessions as nat) + "\nzqfw_quarantined_flows "@ + text::dec(
        m.quarantined_flows as nat,
    ) + "\nzqfw_quarantined_ips "@ + text::dec(m.quarantined_ips as nat)
        + "\nzqfw_decisions_total "@ + text::dec(m.decisions as nat)
        + "\n# HELP zqfw_enforce Enforcement mode (1=drop, 0=monitor).\n# TYPE zqfw_enforce gauge\nzqfw_enforce "@
        + text::dec(
        if m.enforce {
            1
        } else {
            0
        },
    ) + "\n"@
}

/// Renders the metrics page.
pub fn render(m: &MetricsState) -> (r: String)
    ensures
        r@ == page(*m),
{
    let mut t: String = String::new();
    t.append(
        "# HELP zqfw_packets_total Packets evaluated by the probes.\n# TYPE zqfw_packets_total counter\nzqfw_packets_passed_total ",
    );
    text::push_dec(&mut t, m.pass as u128);
    t.append("\nzqfw_packets_dropped_total ");
    text::push_dec(&mut t, m.drop as u128);
    t.append(
        "\n# HELP zqfw_block_hits_total Quarantined flows that hit the blocklist.\n# TYPE zqfw_block_hits_total counter\nzqfw_block_hits_total ",
    );
    text::push_dec(&mut t, m.block_hits as u128);
    t.append("\nzqfw_new_flows_total ");
    text::push_dec(&mut t, m.new_flows as u128);
    t.append("\nzqfw_malformed_total ");
    text::push_dec(&mut t, m.malformed as u128);
    t.append("\nzqfw_events_lost_total ");
    text::push_dec(&mut t, m.events_lost as u128);
    t.append(
        "\n# HELP zqfw_sessions Current in-memory sessions.\n# TYPE zqfw_sessions gauge\nzqfw_sessions ",
    );
    text::push_dec(&mut t, m.sessions as u128);
    t.append("\nzqfw_quarantined_flows ");
    text::push_dec(&mut t, m.quarantined_flows as u128);
    t.append("\nzqfw_quarantined_ips ");
    text::push_dec(&mut t, m.quarantined_ips as u128);
    t.append("\nzqfw_decisions_total ");
    text::push_dec(&mut t, m.decisions as u128);
    t.append(
        "\n# HELP zqfw_enforce Enforcement mode (1=drop, 0=monitor).\n# TYPE zqfw_enforce gauge\nzqfw_enforce ",
    );
    text::push_dec(
        &mut t,
        if m.enforce {
            1
        } else {
            0
        },
    );
    t.append("\n");
    assert(t@ =~= page(*m));
    t
}

/// The HTTP answer that carries `body`, with the body's length in bytes.
pub open spec fn http_answer(body: Seq<char>) -> Seq<char> {
    "HTTP/1.1 200 OK\r\nContent-Type: text/plain; version=0.0.4\r\nContent-Length: "@ + text::dec(
        vstd::utf8::encode_utf8(body).len(),
    ) + "\r\nConnection: close\r\n\r\n"@ + body
}

/// The answer to a scrape of the metrics page.
pub fn respond(m: &MetricsState) -> (r: String)
    ensures
        r@ == http_answer(page(*m)),
{
    let body: String = render(m);
    let mut t: String = String::new();
    t.append("HTTP/1.1 200 OK\r\nContent-Type: text/plain; version=0.0.4\r\nContent-Length: ");
    text::push_dec(&mut t, body.as_str().as_bytes().len() as u128);
    t.append("\r\nConnection: close\r\n\r\n");
    t.append(body.as_str());
    assert(t@ =~= http_answer(page(*m)));
    t
}

/// Whether a page holds a line made of `name`, a blank and `n` in decimal.
pub open spec fn shows(page: Seq<char>, name: Seq<char>, n: nat) -> bool {
    exists|before: Seq<char>, after: Seq<char>| #[trigger]
        shown_between(page, before, name, n, after)
}

/// Whether a page is `before`, then the line made of `name` and `n`, then
/// `after`.
pub open spec fn shown_between(
    page: Seq<char>,
    before: Seq<char>,
    name: Seq<char>,
    n: nat,
    after: Seq<char>,
) -> bool {
    &&& page == before + name + seq![' '] + text::dec(n) + after
    &&& before.len() > 0 ==> before.last() == '\n'
    &&& after.len() > 0 && after[0] == '\n'
}

/// Whether a piece of the page ends in a line that begins with `name` and a
/// blank.
pub open spec fn leads_in(piece: Seq<char>, name: Seq<char>) -> bool {
    let n = piece.len() - name.len() - 1;
    &&& n > 0
    &&& piece == piece.take(n) + name + seq![' ']
    &&& piece[n - 1] == '\n'
}

proof fn lemma_shown(
    page: Seq<char>,
    piece: Seq<char>,
    name: Seq<char>,
    n: nat,
    next: Seq<char>,
)
    requires
        text::says(page, piece, text::dec(n), next),
        leads_in(piece, name),
        next.len() > 0 && next[0] == '\n',
    ensures
        shows(page, name, n),
{
    let (head, tail) = choose|head: Seq<char>, tail: Seq<char>| #[trigger]
        text::says_between(page, head, piece, text::dec(n), next, tail);
    let k = piece.len() - name.len() - 1;
    let before = head + piece.take(k);
    let after = next + tail;
    assert(head + piece =~= before + name + seq![' ']);
    assert(before + name + seq![' '] + text::dec(n) + after =~= page);
    assert(before.last() == '\n');
    assert(shown_between(page, before, name, n, after));
}

/// Each figure stands on the page between the pieces of text around it.
proof fn lemma_page_pieces(m: MetricsState, mode: nat)
    requires
        mode == if m.enforce {
            1nat
        } else {
            0
        },
    ensures
        text::says(
            page(m),
            "# HELP zqfw_packets_total Packets evaluated by the probes.\n# TYPE zqfw_packets_total counter\nzqfw_packets_passed_total "@,
            text::dec(m.pass as nat),
            "\nzqfw_packets_dropped_total "@,
        ),
        text::says(
            page(m),
            "\nzqfw_packets_dropped_total "@,
            text::dec(m.drop as nat),
            "\n# HELP zqfw_block_hits_total Quarantined flows that hit the blocklist.\n# TYPE zqfw_block_hits_total counter\nzqfw_block_hits_total "@,
        ),
        text::says(
            page(m),
            "\n# HELP zqfw_block_hits_total Quarantined flows that hit the blocklist.\n# TYPE zqfw_block_hits_total counter\nzqfw_block_hits_total "@,
            text::dec(m.block_hits as nat),
            "\nzqfw_new_flows_total "@,
        ),
        text::says(
            page(m),
            "\nzqfw_new_flows_total "@,
            text::dec(m.new_flows as nat),
            "\nzqfw_malformed_total "@,
        ),
        text::says(
            page(m),
            "\nzqfw_malformed_total "@,
            text::dec(m.malformed as nat),
            "\nzqfw_events_lost_total "@,
        ),
        text::says(
            page(m),
            "\nzqfw_events_lost_total "@,
            text::dec(m.events_lost as nat),
            "\n# HELP zqfw_sessions Current in-memory sessions.\n# TYPE zqfw_sessions gauge\nzqfw_sessions "@,
        ),
        text::says(
            page(m),
            "\n# HELP zqfw_sessions Current in-memory sessions.\n# TYPE zqfw_sessions gauge\nzqfw_sessions "@,
            text::dec(m.sessions as nat),
            "\nzqfw_quarantined_flows "@,
        ),
        text::says(
            page(m),
            "\nzqfw_quarantined_flows "@,
            text::dec(m.quarantined_flows as nat),
            "\nzqfw_quarantined_ips "@,
        ),
        text::says(
            page(m),
            "\nzqfw_quarantined_ips "@,
            text::dec(m.quarantined_ips as nat),
            "\nzqfw_decisions_total "@,
        ),
        text::says(
            page(m),
            "\nzqfw_decisions_total "@,
            text::dec(m.decisions as nat),
            "\n# HELP zqfw_enforce Enforcement mode (1=drop, 0=monitor).\n# TYPE zqfw_enforce gauge\nzqfw_enforce "@,
        ),
        text::says(
            page(m),
            "\n# HELP zqfw_enforce Enforcement mode (1=drop, 0=monitor).\n# TYPE zqfw_enforce gauge\nzqfw_enforce "@,
            text::dec(mode),
            "\n"@,
        ),
{
    broadcast use text::lemma_run_push;

    let parts = Seq::empty()
        .push("# HELP zqfw_packets_total Packets evaluated by the probes.\n# TYPE zqfw_packets_total counter\nzqfw_packets_passed_total "@)
        .push(text::dec(m.pass as nat))
        .push("\nzqfw_packets_dropped_total "@)
        .push(text::dec(m.drop as nat))
        .push("\n# HELP zqfw_block_hits_total Quarantined flows that hit the blocklist.\n# TYPE zqfw_block_hits_total counter\nzqfw_block_hits_total "@)
        .push(text::dec(m.block_hits as nat))
        .push("\nzqfw_new_flows_total "@)
        .push(text::dec(m.new_flows as nat))
        .push("\nzqfw_malformed_total "@)
        .push(text::dec(m.malformed as nat))
        .push("\nzqfw_events_lost_total "@)
        .push(text::dec(m.events_lost as nat))
        .push("\n# HELP zqfw_sessions Current in-memory sessions.\n# TYPE zqfw_sessions gauge\nzqfw_sessions "@)
        .push(text::dec(m.sessions as nat))
        .push("\nzqfw_quarantined_flows "@)
        .push(text::dec(m.quarantined_flows as nat))
        .push("\nzqfw_quarantined_ips "@)
        .push(text::dec(m.quarantined_ips as nat))
        .push("\nzqfw_decisions_total "@)
        .push(text::dec(m.decisions as nat))
        .push("\n# HELP zqfw_enforce Enforcement mode (1=drop, 0=monitor).\n# TYPE zqfw_enforce gauge\nzqfw_enforce "@)
        .push(text::dec(mode))
        .push("\n"@);
    assert(text::run(parts) == page(m));
    text::lemma_run_says(parts, 0);
    text::lemma_run_says(parts, 2);
    text::lemma_run_says(parts, 4);
    text::lemma_run_says(parts, 6);
    text::lemma_run_says(parts, 8);
    text::lemma_run_says(parts, 10);
    text::lemma_run_says(parts, 12);
    text::lemma_run_says(parts, 14);
    text::lemma_run_says(parts, 16);
    text::lemma_run_says(parts, 18);
    text::lemma_run_says(parts, 20);
}

/// The pieces before the packet counters.
proof fn lemma_packet_pieces()
    ensures
        leads_in(
            "# HELP zqfw_packets_total Packets evaluated by the probes.\n# TYPE zqfw_packets_total counter\nzqfw_packets_passed_total "@,
            "zqfw_packets_passed_total"@,
        ),
        leads_in(
            "\nzqfw_packets_dropped_total "@,
            "zqfw_packets_dropped_total"@,
        ),
        "\nzqfw_packets_dropped_total "@[0] == '\n',
{
    reveal_strlit("# HELP zqfw_packets_total Packets evaluated by the probes.\n# TYPE zqfw_packets_total counter\nzqfw_packets_passed_total ");
    reveal_strlit("zqfw_packets_passed_total");
    reveal_strlit("\nzqfw_packets_dropped_total ");
    reveal_strlit("zqfw_packets_dropped_total");
    let (l0, n0) = (
        "# HELP zqfw_packets_total Packets evaluated by the probes.\n# TYPE zqfw_packets_total counter\nzqfw_packets_passed_total "@,
        "zqfw_packets_passed_total"@,
    );
    assert(l0 =~= l0.take(l0.len() - n0.len() - 1) + n0 + seq![' ']);
    let (l1, n1) = (
        "\nzqfw_packets_dropped_total "@,
        "zqfw_packets_dropped_total"@,
    );
    assert(l1 =~= l1.take(l1.len() - n1.len() - 1) + n1 + seq![' ']);
}

/// The piece before the block hits.
proof fn lemma_hit_piece()
    ensures
        leads_in(
            "\n# HELP zqfw_block_hits_total Quarantined flows that hit the blocklist.\n# TYPE zqfw_block_hits_total counter\nzqfw_block_hits_total "@,
            "zqfw_block_hits_total"@,
        ),
        "\n# HELP zqfw_block_hits_total Quarantined flows that hit the blocklist.\n# TYPE zqfw_block_hits_total counter\nzqfw_block_hits_total "@[0] == '\n',
{
    reveal_strlit("\n# HELP zqfw_block_hits_total Quarantined flows that hit the blocklist.\n# TYPE zqfw_block_hits_total counter\nzqfw_block_hits_total ");
    reveal_strlit("zqfw_block_hits_total");
    let (l2, n2) = (
        "\n# HELP zqfw_block_hits_total Quarantined flows that hit the blocklist.\n# TYPE zqfw_block_hits_total counter\nzqfw_block_hits_total "@,
        "zqfw_block_hits_total"@,
    );
    assert(l2 =~= l2.take(l2.len() - n2.len() - 1) + n2 + seq![' ']);
}

/// The pieces before the flow and event counters.
proof fn lemma_flow_pieces()
    ensures
        leads_in(
            "\nzqfw_new_flows_total "@,
            "zqfw_new_flows_total"@,
        ),
        "\nzqfw_new_flows_total "@[0] == '\n',
        leads_in(
            "\nzqfw_malformed_total "@,
            "zqfw_malformed_total"@,
        ),
        "\nzqfw_malformed_total "@[0] == '\n',
        leads_in(
            "\nzqfw_events_lost_total "@,
            "zqfw_events_lost_total"@,
        ),
        "\nzqfw_events_lost_total "@[0] == '\n',
{
    reveal_strlit("\nzqfw_new_flows_total ");
    reveal_strlit("zqfw_new_flows_total");
    reveal_strlit("\nzqfw_malformed_total ");
    reveal_strlit("zqfw_malformed_total");
    reveal_strlit("\nzqfw_events_lost_total ");
    reveal_strlit("zqfw_events_lost_total");
    let (l3, n3) = (
        "\nzqfw_new_flows_total "@,
        "zqfw_new_flows_total"@,
    );
    assert(l3 =~= l3.take(l3.len() - n3.len() - 1) + n3 + seq![' ']);
    let (l4, n4) = (
        "\nzqfw_malformed_total "@,
        "zqfw_malformed_total"@,
    );
    assert(l4 =~= l4.take(l4.len() - n4.len() - 1) + n4 + seq![' ']);
    let (l5, n5) = (
        "\nzqfw_events_lost_total "@,
        "zqfw_events_lost_total"@,
    );
    assert(l5 =~= l5.take(l5.len() - n5.len() - 1) + n5 + seq![' ']);
}

/// The piece before the sessions.
proof fn lemma_session_piece()
    ensures
        leads_in(
            "\n# HELP zqfw_sessions Current in-memory sessions.\n# TYPE zqfw_sessions gauge\nzqfw_sessions "@,
            "zqfw_sessions"@,
        ),
        "\n# HELP zqfw_sessions Current in-memory sessions.\n# TYPE zqfw_sessions gauge\nzqfw_sessions "@[0] == '\n',
{
    reveal_strlit("\n# HELP zqfw_sessions Current in-memory sessions.\n# TYPE zqfw_sessions gauge\nzqfw_sessions ");
    reveal_strlit("zqfw_sessions");
    let (l6, n6) = (
        "\n# HELP zqfw_sessions Current in-memory sessions.\n# TYPE zqfw_sessions gauge\nzqfw_sessions "@,
        "zqfw_sessions"@,
    );
    assert(l6 =~= l6.take(l6.len() - n6.len() - 1) + n6 + seq![' ']);
}

/// The pieces before the quarantine and decision figures.
proof fn lemma_gauge_pieces()
    ensures
        leads_in(
            "\nzqfw_quarantined_flows "@,
            "zqfw_quarantined_flows"@,
        ),
        "\nzqfw_quarantined_flows "@[0] == '\n',
        leads_in(
            "\nzqfw_quarantined_ips "@,
            "zqfw_quarantined_ips"@,
        ),
        "\nzqfw_quarantined_ips "@[0] == '\n',
        leads_in(
            "\nzqfw_decisions_total "@,
            "zqfw_decisions_total"@,
        ),
        "\nzqfw_decisions_total "@[0] == '\n',
{
    reveal_strlit("\nzqfw_quarantined_flows ");
    reveal_strlit("zqfw_quarantined_flows");
    reveal_strlit("\nzqfw_quarantined_ips ");
    reveal_strlit("zqfw_quarantined_ips");
    reveal_strlit("\nzqfw_decisions_total ");
    reveal_strlit("zqfw_decisions_total");
    let (l7, n7) = (
        "\nzqfw_quarantined_flows "@,
        "zqfw_quarantined_flows"@,
    );
    assert(l7 =~= l7.take(l7.len() - n7.len() - 1) + n7 + seq![' ']);
    let (l8, n8) = (
        "\nzqfw_quarantined_ips "@,
        "zqfw_quarantined_ips"@,
    );
    assert(l8 =~= l8.take(l8.len() - n8.len() - 1) + n8 + seq![' ']);
    let (l9, n9) = (
        "\nzqfw_decisions_total "@,
        "zqfw_decisions_total"@,
    );
    assert(l9 =~= l9.take(l9.len() - n9.len() - 1) + n9 + seq![' ']);
}

/// The piece before the mode.
proof fn lemma_mode_piece()
    ensures
        leads_in(
            "\n# HELP zqfw_enforce Enforcement mode (1=drop, 0=monitor).\n# TYPE zqfw_enforce gauge\nzqfw_enforce "@,
            "zqfw_enforce"@,
        ),
        "\n# HELP zqfw_enforce Enforcement mode (1=drop, 0=monitor).\n# TYPE zqfw_enforce gauge\nzqfw_enforce "@[0] == '\n',
{
    reveal_strlit("\n# HELP zqfw_enforce Enforcement mode (1=drop, 0=monitor).\n# TYPE zqfw_enforce gauge\nzqfw_enforce ");
    reveal_strlit("zqfw_enforce");
    let (l10, n10) = (
        "\n# HELP zqfw_enforce Enforcement mode (1=drop, 0=monitor).\n# TYPE zqfw_enforce gauge\nzqfw_enforce "@,
        "zqfw_enforce"@,
    );
    assert(l10 =~= l10.take(l10.len() - n10.len() - 1) + n10 + seq![' ']);
}

/// Each figure stands on the page on a line of its own, behind its own name; the
/// mode is shown as one when the plane drops and as zero when it only watches.
pub proof fn law_page_shows_each_figure(m: MetricsState)
    ensures
        shows(page(m), "zqfw_packets_passed_total"@, m.pass as nat),
        shows(page(m), "zqfw_packets_dropped_total"@, m.drop as nat),
        shows(page(m), "zqfw_block_hits_total"@, m.block_hits as nat),
        shows(page(m), "zqfw_new_flows_total"@, m.new_flows as nat),
        shows(page(m), "zqfw_malformed_total"@, m.malformed as nat),
        shows(page(m), "zqfw_events_lost_total"@, m.events_lost as nat),
        shows(page(m), "zqfw_sessions"@, m.sessions as nat),
        shows(page(m), "zqfw_quarantined_flows"@, m.quarantined_flows as nat),
        shows(page(m), "zqfw_quarantined_ips"@, m.quarantined_ips as nat),
        shows(page(m), "zqfw_decisions_total"@, m.decisions as nat),
        m.enforce ==> shows(page(m), "zqfw_enforce"@, 1),
        !m.enforce ==> shows(page(m), "zqfw_enforce"@, 0),
{
    let mode: nat = if m.enforce {
        1
    } else {
        0
    };
    reveal_strlit("\n");
    lemma_page_pieces(m, mode);
    lemma_packet_pieces();
    lemma_hit_piece();
    lemma_flow_pieces();
    lemma_session_piece();
    lemma_gauge_pieces();
    lemma_mode_piece();
    lemma_shown(
        page(m),
        "# HELP zqfw_packets_total Packets evaluated by the probes.\n# TYPE zqfw_packets_total counter\nzqfw_packets_passed_total "@,
        "zqfw_packets_passed_total"@,
        m.pass as nat,
        "\nzqfw_packets_dropped_total "@,
    );
    lemma_shown(
        page(m),
        "\nzqfw_packets_dropped_total "@,
        "zqfw_packets_dropped_total"@,
        m.drop as nat,
        "\n# HELP zqfw_block_hits_total Quarantined flows that hit the blocklist.\n# TYPE zqfw_block_hits_total counter\nzqfw_block_hits_total "@,
    );
    lemma_shown(
        page(m),
        "\n# HELP zqfw_block_hits_total Quarantined flows that hit the blocklist.\n# TYPE zqfw_block_hits_total counter\nzqfw_block_hits_total "@,
        "zqfw_block_hits_total"@,
        m.block_hits as nat,
        "\nzqfw_new_flows_total "@,
    );
    lemma_shown(
        page(m),
        "\nzqfw_new_flows_total "@,
        "zqfw_new_flows_total"@,
        m.new_flows as nat,
        "\nzqfw_malformed_total "@,
    );
    lemma_shown(
        page(m),
        "\nzqfw_malformed_total "@,
        "zqfw_malformed_total"@,
        m.malformed as nat,
        "\nzqfw_events_lost_total "@,
    );
    lemma_shown(
        page(m),
        "\nzqfw_events_lost_total "@,
        "zqfw_events_lost_total"@,
        m.events_lost as nat,
        "\n# HELP zqfw_sessions Current in-memory sessions.\n# TYPE zqfw_sessions gauge\nzqfw_sessions "@,
    );
    lemma_shown(
        page(m),
        "\n# HELP zqfw_sessions Current in-memory sessions.\n# TYPE zqfw_sessions gauge\nzqfw_sessions "@,
        "zqfw_sessions"@,
        m.sessions as nat,
        "\nzqfw_quarantined_flows "@,
    );
    lemma_shown(
        page(m),
        "\nzqfw_quarantined_flows "@,
        "zqfw_quarantined_flows"@,
        m.quarantined_flows as nat,
        "\nzqfw_quarantined_ips "@,
    );
    lemma_shown(
        page(m),
        "\nzqfw_quarantined_ips "@,
        "zqfw_quarantined_ips"@,
        m.quarantined_ips as nat,
        "\nzqfw_decisions_total "@,
    );
    lemma_shown(
        page(m),
        "\nzqfw_decisions_total "@,
        "zqfw_decisions_total"@,
        m.decisions as nat,
        "\n# HELP zqfw_enforce Enforcement mode (1=drop, 0=monitor).\n# TYPE zqfw_enforce gauge\nzqfw_enforce "@,
    );
    lemma_shown(
        page(m),
        "\n# HELP zqfw_enforce Enforcement mode (1=drop, 0=monitor).\n# TYPE zqfw_enforce gauge\nzqfw_enforce "@,
        "zqfw_enforce"@,
        mode,
        "\n"@,
    );
}

} // verus!
