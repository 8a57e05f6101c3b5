//! `check_nntp`: server URLs and the configuration snippets it writes.
use vstd::prelude::*;
use crate::text::{
    all_digits, chars_of, decimal, decimal_string, has_prefix_at, is_digit, join,
    last_index, lemma_last_index, parse_uint, parse_uint_range, push_str, rfind_char,
    slice_chars, string_of, string_of_range, strs_view, trim, trim_bounds,
};

verus! {

/// A server as given on the command line.
#[derive(Debug, Clone)]
pub struct ServerConfig {
    /// Host name, with its `nntp://` or `nntps://` scheme if one was given.
    pub hostname: String,
    /// Port, when one was given.
    pub port: Option<u16>,
    /// Whether the URL asks for TLS (`nntps://`).
    pub use_tls: bool,
}

/// Meaning of a server URL: `(hostname, port, use_tls)` or an error message.
///
/// The text is trimmed; `nntps://` asks for TLS. When the text after the
/// last `:` is a non-empty run of digits it is the port (an error when it
/// exceeds 65535) and the text before it the hostname; otherwise the whole
/// text is the hostname. An empty input or hostname is an error.
pub open spec fn spec_parse_server_url(s: Seq<char>) -> Result<(Seq<char>, Option<u16>, bool), Seq<char>> {
    let t = trim(s);
    let tls = t.len() >= 8 && t.take(8) == "nntps://"@;
    let p = last_index(t, ':');
    let port_text = t.skip(p + 1);
    if s.len() == 0 {
        Err("empty hostname"@)
    } else if p >= 0 && port_text.len() > 0 && all_digits(port_text) {
        match parse_uint(port_text, 65535) {
            None => Err("invalid port '"@ + port_text + "'"@),
            Some(n) => if p == 0 {
                Err("empty hostname"@)
            } else {
                Ok((t.take(p), Some(n as u16), tls))
            },
        }
    } else if t.len() == 0 {
        Err("empty hostname"@)
    } else {
        Ok((t, None, tls))
    }
}

/// Parses an NNTP server URL (see [`spec_parse_server_url`]).
///
/// `nntp://hostname` and `nntps://hostname` leave the port to the library
/// (119 or 563); `nntp://hostname:port` gives it.
pub fn parse_server_url(input: &str) -> (r: Result<ServerConfig, String>)
    ensures
        match spec_parse_server_url(input@) {
            Ok((h, port, tls)) => r matches Ok(c) && c.hostname@ == h && c.port == port
                && c.use_tls == tls,
            Err(msg) => r matches Err(e) && e@ == msg,
        },
{
    let v = chars_of(input);
    if v.len() == 0 {
        return Err(String::from_str("empty hostname"));
    }
    let (a, b) = trim_bounds(&v, 0, v.len());
    proof {
        assert(v@.subrange(0, v@.len() as int) =~= v@);
    }
    let t = slice_chars(&v, a, b);
    let scheme = chars_of("nntps://");
    let use_tls = has_prefix_at(&t, 0, &scheme);
    proof {
        reveal_strlit("nntps://");
        assert(t@.subrange(0, 8) =~= t@.take(8));
    }
    match rfind_char(&t, 0, t.len(), ':') {
        Some(p) => {
            proof {
                assert(t@.subrange(0, t@.len() as int) =~= t@);
                lemma_last_index(t@, ':');
                assert(t@.subrange(p + 1, t@.len() as int) =~= t@.skip(p + 1));
            }
            let mut all = p + 1 < t.len();
            let mut i = p + 1;
            while i < t.len()
                invariant
                    p + 1 <= i <= t.len(),
                    all == (p + 1 < t.len() && forall|j: int| p + 1 <= j < i ==> is_digit(#[trigger] t@[j])),
                decreases t.len() - i,
            {
                if !('0' <= t[i] && t[i] <= '9') {
                    all = false;
                }
                i = i + 1;
            }
            proof {
                let pt = t@.skip(p + 1);
                if all {
                    assert forall|j: int| 0 <= j < pt.len() implies is_digit(#[trigger] pt[j]) by {
                        assert(pt[j] == t@[p + 1 + j]);
                    }
                } else if pt.len() > 0 && all_digits(pt) {
                    let j = choose|j: int| p + 1 <= j < t@.len() && !is_digit(t@[j]);
                    assert(pt[j - p - 1] == t@[j]);
                }
            }
            if all {
                match parse_uint_range(&t, p + 1, t.len(), 65535) {
                    None => {
                        let mut msg = String::from_str("invalid port '");
                        let port_text = string_of_range(&t, p + 1, t.len());
                        push_str(&mut msg, port_text.as_str());
                        push_str(&mut msg, "'");
                        return Err(msg);
                    },
                    Some(n) => {
                        if p == 0 {
                            return Err(String::from_str("empty hostname"));
                        }
                        let hostname = string_of_range(&t, 0, p);
                        proof {
                            assert(t@.subrange(0, p as int) =~= t@.take(p as int));
                        }
                        return Ok(ServerConfig { hostname, port: Some(n as u16), use_tls });
                    },
                }
            }
        },
        None => {
            proof {
                assert(t@.subrange(0, t@.len() as int) =~= t@);
            }
        },
    }
    if t.len() == 0 {
        return Err(String::from_str("empty hostname"));
    }
    Ok(ServerConfig { hostname: string_of(&t), port: None, use_tls })
}

/// The port line of a configuration snippet.
pub open spec fn spec_port_line(port: Option<u16>) -> Seq<char> {
    match port {
        Some(p) => "  port: "@ + decimal(p as nat),
        None => "  # port: 119  # optional, defaults to 119"@,
    }
}

/// One YAML list item per group.
pub open spec fn spec_list_items(groups: Seq<Seq<char>>) -> Seq<Seq<char>> {
    groups.map_values(|g: Seq<char>| "      - "@ + g)
}

/// The `nntp:` block shared by both snippets.
pub open spec fn spec_nntp_block(hostname: Seq<char>, port: Option<u16>, groups: Seq<Seq<char>>) -> Seq<char> {
    "nntp:\n  hostname: \""@ + hostname + "\"\n"@ + spec_port_line(port) + "\n  group_lists:\n"@
        + join(spec_list_items(groups), "\n"@) + "\n"@
}

/// The configuration snippet for the selected lists.
pub open spec fn spec_config_snippet(hostname: Seq<char>, port: Option<u16>, groups: Seq<Seq<char>>) -> Seq<char> {
    "# NNTP Configuration Snippet\n# Add this to your archiver_config.yaml\n\n"@ + spec_nntp_block(
        hostname,
        port,
        groups,
    )
}

/// The whole configuration file for the selected lists.
pub open spec fn spec_full_config(hostname: Seq<char>, port: Option<u16>, groups: Seq<Seq<char>>) -> Seq<char> {
    "# MLH Archiver Configuration\n# Generated by check_nntp\n\nnthreads: 2\noutput_dir: \"./output\"\nloop_groups: true\n\n"@
        + spec_nntp_block(hostname, port, groups)
        + "  # article_range: \"1-100\"  # Optional: fetch specific range\n"@
}

/// Writes the `nntp:` block.
fn push_nntp_block(out: &mut String, server: &ServerConfig, groups: &[String])
    ensures
        final(out)@ == old(out)@ + spec_nntp_block(
            server.hostname@,
            server.port,
            strs_view(groups@),
        ),
{
    push_str(out, "nntp:\n  hostname: \"");
    push_str(out, server.hostname.as_str());
    push_str(out, "\"\n");
    match server.port {
        Some(p) => {
            push_str(out, "  port: ");
            let digits = decimal_string(p as u64);
            push_str(out, digits.as_str());
        },
        None => {
            push_str(out, "  # port: 119  # optional, defaults to 119");
        },
    }
    push_str(out, "\n  group_lists:\n");
    let ghost items = spec_list_items(strs_view(groups@));
    let mut i: usize = 0;
    let ghost start = out@;
    while i < groups.len()
        invariant
            i <= groups.len(),
            items == spec_list_items(strs_view(groups@)),
            out@ == start + join(items.take(i as int), "\n"@),
        decreases groups.len() - i,
    {
        proof {
            assert(items.take(i + 1).drop_last() =~= items.take(i as int));
        }
        if i > 0 {
            push_str(out, "\n");
        }
        push_str(out, "      - ");
        push_str(out, groups[i].as_str());
        proof {
            assert(items.take(i + 1).last() == "      - "@ + groups@[i as int]@);
            if i == 0 {
                assert(out@ =~= start + join(items.take(1), "\n"@));
            } else {
                assert(out@ =~= start + join(items.take(i + 1), "\n"@));
            }
        }
        i = i + 1;
    }
    proof {
        assert(items.take(i as int) =~= items);
    }
    push_str(out, "\n");
    proof {
        assert(out@ =~= old(out)@ + spec_nntp_block(
            server.hostname@,
            server.port,
            strs_view(groups@),
        ));
    }
}

/// The configuration snippet printed for the selected lists.
pub fn generate_config_yaml(server: &ServerConfig, groups: &[String]) -> (r: String)
    ensures
        r@ == spec_config_snippet(server.hostname@, server.port, strs_view(groups@)),
{
    let mut out = String::from_str(
        "# NNTP Configuration Snippet\n# Add this to your archiver_config.yaml\n\n",
    );
    push_nntp_block(&mut out, server, groups);
    out
}

/// The whole configuration file written for the selected lists.
pub fn generate_full_config_yaml(server: &ServerConfig, groups: &[String]) -> (r: String)
    ensures
        r@ == spec_full_config(server.hostname@, server.port, strs_view(groups@)),
{
    let mut out = String::from_str(
        "# MLH Archiver Configuration\n# Generated by check_nntp\n\nnthreads: 2\noutput_dir: \"./output\"\nloop_groups: true\n\n",
    );
    push_nntp_block(&mut out, server, groups);
    push_str(&mut out, "  # article_range: \"1-100\"  # Optional: fetch specific range\n");
    out
}

/// Shortens a group name for the preview table.
pub fn truncate_str(s: &str, max_len: usize) -> (r: String)
    requires
        crate::tools::display::can_truncate(s@, max_len as nat),
    ensures
        exists|k: int|
            0 <= k <= s@.len() && (crate::text::utf8_prefix_len(s@, s@.len() as int)
                > max_len ==> crate::text::utf8_prefix_len(s@, k) == max_len - 3) && r@
                == crate::tools::display::spec_truncated(s@, max_len as nat, k),
{
    crate::tools::display::truncate_text(s, max_len)
}

} // verus!
