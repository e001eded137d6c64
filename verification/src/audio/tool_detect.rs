//! The external audio tool used for capture and playback.
//!
//! No audio library is bound: a command-line tool is run, and raw 16-bit little-endian samples
//! are piped. The tools are found per operating system, and every command can be configured. A
//! command template may hold `{rate}`, `{channels}`, `{device}` and `{file}`.

use vstd::prelude::*;

use crate::search::Search;
#[allow(unused_imports)]
use crate::search::{added, hits, names, Find};
use crate::text;
#[allow(unused_imports)]
use crate::text::{
    contains_text, decimal, joined, opt_view, pieces, text_replaced, views,
};

verus! {

/// The operating systems that are told apart.
#[derive(Debug, Clone, Copy, PartialEq, Eq, Structural)]
pub enum Os {
    Linux,
    MacOs,
    Other,
}

/// The operating system with a target name.
pub fn current_os(target: &str) -> (r: Os)
    ensures
        r == (if target@ == "linux"@ {
            Os::Linux
        } else if target@ == "macos"@ {
            Os::MacOs
        } else {
            Os::Other
        }),
{
    if text::same(target, "linux") {
        Os::Linux
    } else if text::same(target, "macos") {
        Os::MacOs
    } else {
        Os::Other
    }
}

/// A capture command. The tool writes raw 16-bit little-endian samples to its output.
#[derive(Debug, Clone)]
pub struct CaptureCommand {
    pub argv: Vec<String>,
}

/// A playback command for a file. Where `via_stdin` is set the samples are piped to the tool;
/// otherwise the file stands in `argv`.
#[derive(Debug, Clone)]
pub struct PlaybackCommand {
    pub argv: Vec<String>,
    pub via_stdin: bool,
}

/// What command templates are filled with.
#[derive(Debug, Clone)]
pub struct AudioParams {
    pub rate: u32,
    pub channels: u16,
    pub device: Option<String>,
}

/// Whether a template's word is `{device|DEFAULT}`.
pub open spec fn is_device_or(tok: Seq<char>) -> bool {
    "{device|"@.is_prefix_of(tok) && tok.len() > 8 && tok.last() == '}'
}

/// What one word of a template becomes.
pub open spec fn expanded(tok: Seq<char>, p: AudioParams, file: Option<Seq<char>>) -> Seq<Seq<char>> {
    if tok == "{rate}"@ {
        seq![decimal(p.rate as nat)]
    } else if tok == "{channels}"@ {
        seq![decimal(p.channels as nat)]
    } else if tok == "{file}"@ {
        match file {
            Some(f) => seq![f],
            None => Seq::empty(),
        }
    } else if tok == "{ca_dev}"@ {
        match p.device {
            Some(d) => seq!["-t"@, "coreaudio"@, d@],
            None => seq!["-d"@],
        }
    } else if tok == "{device:-D}"@ {
        match p.device {
            Some(d) => seq!["-D"@, d@],
            None => Seq::empty(),
        }
    } else if is_device_or(tok) {
        match p.device {
            Some(d) => seq![d@],
            None => seq![tok.subrange(8, tok.len() - 1)],
        }
    } else {
        seq![
            text_replaced(
                text_replaced(
                    text_replaced(
                        text_replaced(tok, "{rate}"@, decimal(p.rate as nat)),
                        "{channels}"@,
                        decimal(p.channels as nat),
                    ),
                    "{device}"@,
                    match p.device {
                        Some(d) => d@,
                        None => Seq::empty(),
                    },
                ),
                "{file}"@,
                match file {
                    Some(f) => f,
                    None => Seq::empty(),
                },
            ),
        ]
    }
}

/// What a template becomes: each of its words, expanded.
pub open spec fn filled(template: Seq<Seq<char>>, p: AudioParams, file: Option<Seq<char>>) -> Seq<
    Seq<char>,
>
    decreases template.len(),
{
    if template.len() == 0 {
        Seq::empty()
    } else {
        filled(template.drop_last(), p, file) + expanded(template.last(), p, file)
    }
}

fn expand(tok: &str, p: &AudioParams, file: Option<&str>) -> (r: Vec<String>)
    ensures
        views(r@) == expanded(tok@, *p, crate::config::opt_text(file)),
{
    let mut out: Vec<String> = Vec::new();
    if text::same(tok, "{rate}") {
        out.push(text::decimal_of(p.rate as u64));
    } else if text::same(tok, "{channels}") {
        out.push(text::decimal_of(p.channels as u64));
    } else if text::same(tok, "{file}") {
        if let Some(f) = file {
            out.push(f.to_owned());
        }
    } else if text::same(tok, "{ca_dev}") {
        match &p.device {
            Some(d) => {
                out.push("-t".to_owned());
                out.push("coreaudio".to_owned());
                out.push(d.clone());
            },
            None => {
                out.push("-d".to_owned());
            },
        }
    } else if text::same(tok, "{device:-D}") {
        if let Some(d) = &p.device {
            out.push("-D".to_owned());
            out.push(d.clone());
        }
    } else {
        let n: usize = tok.unicode_len();
        if text::starts_with(tok, "{device|") && n > 8 && tok.get_char(n - 1) == '}' {
            match &p.device {
                Some(d) => out.push(d.clone()),
                None => out.push(tok.substring_char(8, n - 1).to_owned()),
            }
        } else {
            let device = match &p.device {
                Some(d) => d.as_str(),
                None => "",
            };
            let name = match file {
                Some(f) => f,
                None => "",
            };
            proof {
                reveal_strlit("");
                assert(p.device is None ==> device@ =~= Seq::<char>::empty());
                assert(file is None ==> name@ =~= Seq::<char>::empty());
            }
            let s = text::replace(tok, "{rate}", &text::decimal_of(p.rate as u64));
            let s = text::replace(&s, "{channels}", &text::decimal_of(p.channels as u64));
            let s = text::replace(&s, "{device}", device);
            out.push(text::replace(&s, "{file}", name));
        }
    }
    proof {
        assert(views(out@) =~= expanded(tok@, *p, crate::config::opt_text(file)));
    }
    out
}

/// Fills a template.
///
/// `{rate}`, `{channels}` and `{file}` stand for their values, the file's word being dropped where
/// there is none. `{device|DEFAULT}` is the device, or the default. `{device:-D}` becomes two
/// words where a device is set, and none otherwise. `{ca_dev}` names the device to sox.
pub fn fill(template: &[String], p: &AudioParams, file: Option<&str>) -> (r: Vec<String>)
    ensures
        views(r@) == filled(views(template@), *p, crate::config::opt_text(file)),
{
    let ghost all = views(template@);
    let ghost f = crate::config::opt_text(file);
    let mut out: Vec<String> = Vec::new();
    let mut i: usize = 0;
    proof {
        assert(views(out@) =~= filled(all.take(0), *p, f));
    }
    while i < template.len()
        invariant
            i <= template.len(),
            all == views(template@),
            f == crate::config::opt_text(file),
            views(out@) == filled(all.take(i as int), *p, f),
        decreases template.len() - i,
    {
        let mut more = expand(&template[i], p, file);
        proof {
            assert(all.take(i + 1).drop_last() =~= all.take(i as int));
            assert(all.take(i + 1).last() == template@[i as int]@);
            assert(views(out@ + more@) =~= views(out@) + views(more@));
        }
        out.append(&mut more);
        i += 1;
    }
    proof {
        assert(all.take(i as int) =~= all);
    }
    out
}

/// A tool that may be there, with its command template.
pub struct Candidate {
    pub bin: &'static str,
    pub template: Vec<String>,
}

/// A [`Candidate`] with its texts as characters.
pub struct CandidateModel {
    pub bin: Seq<char>,
    pub template: Seq<Seq<char>>,
}

impl View for Candidate {
    type V = CandidateModel;

    open spec fn view(&self) -> CandidateModel {
        CandidateModel { bin: self.bin@, template: views(self.template@) }
    }
}

/// The candidates of a list, each as a model.
pub open spec fn candidate_models(v: Seq<Candidate>) -> Seq<CandidateModel> {
    v.map_values(|c: Candidate| c@)
}

/// A candidate whose template is written with a space between its words.
pub open spec fn tool(bin: Seq<char>, template: Seq<char>) -> CandidateModel {
    CandidateModel { bin, template: pieces(template, ' ') }
}

fn candidate(bin: &'static str, template: &str) -> (r: Candidate)
    ensures
        r@ == tool(bin@, template@),
{
    Candidate { bin, template: text::split(template, ' ') }
}

/// The capture tools of an operating system, the preferred one first.
pub open spec fn capture_tools(os: Os) -> Seq<CandidateModel> {
    match os {
        Os::Linux => seq![
            tool(
                "arecord"@,
                "arecord -q -t raw -f S16_LE -r {rate} -c {channels} {device:-D} -"@,
            ),
            tool(
                "ffmpeg"@,
                "ffmpeg -hide_banner -loglevel error -f alsa -i {device|default} -ac {channels} -ar {rate} -f s16le -"@,
            ),
            tool(
                "rec"@,
                "rec -q -t raw -b 16 -e signed-integer -r {rate} -c {channels} -"@,
            ),
        ],
        Os::MacOs => seq![
            tool(
                "sox"@,
                "sox -q {ca_dev} -t raw -b 16 -e signed-integer -r {rate} -c {channels} -"@,
            ),
            tool(
                "ffmpeg"@,
                "ffmpeg -hide_banner -loglevel error -f avfoundation -i {device|:0} -ac {channels} -ar {rate} -f s16le -"@,
            ),
        ],
        Os::Other => Seq::empty(),
    }
}

/// The capture tools of an operating system, the preferred one first.
pub fn capture_candidates(os: Os) -> (r: Vec<Candidate>)
    ensures
        candidate_models(r@) == capture_tools(os),
{
    let mut out: Vec<Candidate> = Vec::new();
    match os {
        Os::Linux => {
            out.push(
                candidate(
                    "arecord",
                    "arecord -q -t raw -f S16_LE -r {rate} -c {channels} {device:-D} -",
                ),
            );
            out.push(
                candidate(
                    "ffmpeg",
                    "ffmpeg -hide_banner -loglevel error -f alsa -i {device|default} -ac {channels} -ar {rate} -f s16le -",
                ),
            );
            out.push(
                candidate(
                    "rec",
                    "rec -q -t raw -b 16 -e signed-integer -r {rate} -c {channels} -",
                ),
            );
        },
        Os::MacOs => {
            out.push(
                candidate(
                    "sox",
                    "sox -q {ca_dev} -t raw -b 16 -e signed-integer -r {rate} -c {channels} -",
                ),
            );
            out.push(
                candidate(
                    "ffmpeg",
                    "ffmpeg -hide_banner -loglevel error -f avfoundation -i {device|:0} -ac {channels} -ar {rate} -f s16le -",
                ),
            );
        },
        Os::Other => {},
    }
    proof {
        assert(candidate_models(out@) =~= capture_tools(os));
    }
    out
}

/// The playback tools of an operating system, the preferred one first.
pub open spec fn playback_tools(os: Os) -> Seq<CandidateModel> {
    match os {
        Os::Linux => seq![
            tool("aplay"@, "aplay -q {device:-D} {file}"@),
            tool("ffplay"@, "ffplay -autoexit -nodisp -loglevel error {file}"@),
            tool("play"@, "play -q {file}"@),
        ],
        Os::MacOs => seq![
            tool("sox"@, "sox -q -V1 {file} {ca_dev}"@),
            tool("afplay"@, "afplay {file}"@),
            tool("ffplay"@, "ffplay -autoexit -nodisp -loglevel error {file}"@),
        ],
        Os::Other => Seq::empty(),
    }
}

/// The playback tools of an operating system, the preferred one first.
pub fn playback_candidates(os: Os) -> (r: Vec<Candidate>)
    ensures
        candidate_models(r@) == playback_tools(os),
{
    let mut out: Vec<Candidate> = Vec::new();
    match os {
        Os::Linux => {
            out.push(candidate("aplay", "aplay -q {device:-D} {file}"));
            out.push(candidate("ffplay", "ffplay -autoexit -nodisp -loglevel error {file}"));
            out.push(candidate("play", "play -q {file}"));
        },
        Os::MacOs => {
            out.push(candidate("sox", "sox -q -V1 {file} {ca_dev}"));
            out.push(candidate("afplay", "afplay {file}"));
            out.push(candidate("ffplay", "ffplay -autoexit -nodisp -loglevel error {file}"));
        },
        Os::Other => {},
    }
    proof {
        assert(candidate_models(out@) =~= playback_tools(os));
    }
    out
}

/// The programs of some tools.
pub open spec fn bins(tools: Seq<CandidateModel>) -> Seq<Seq<char>> {
    tools.map_values(|c: CandidateModel| c.bin)
}

/// Whether a log goes on from an earlier one with a search for each of some tools.
pub open spec fn looked_for(before: Seq<Find>, after: Seq<Find>, tools: Seq<CandidateModel>) -> bool {
    before.is_prefix_of(after) && names(added(before, after)) == bins(tools)
}

/// Which of some candidates are there: each is searched for, in turn.
fn look_for(cands: &Vec<Candidate>, search: &mut Search) -> (r: Vec<bool>)
    ensures
        looked_for(old(search).log(), final(search).log(), candidate_models(cands@)),
        r@ == hits(added(old(search).log(), final(search).log())),
{
    let ghost had = search.log();
    let mut out: Vec<bool> = Vec::new();
    let mut i: usize = 0;
    while i < cands.len()
        invariant
            i <= cands.len(),
            had == old(search).log(),
            had.is_prefix_of(search.log()),
            out@.len() == i,
            added(had, search.log()).len() == i,
            forall|j: int|
                0 <= j < i ==> (#[trigger] added(had, search.log())[j]).0 == cands@[j]@.bin && out@[j]
                    == (added(had, search.log())[j].1 is Some),
        decreases cands.len() - i,
    {
        let ghost before = added(had, search.log());
        let found = search.find(cands[i].bin);
        out.push(found.is_some());
        assert(added(had, search.log()) =~= before.push((cands@[i as int]@.bin, opt_view(found))));
        i += 1;
    }
    proof {
        let new = added(had, search.log());
        assert(names(new) =~= bins(candidate_models(cands@)));
        assert(out@ =~= hits(new));
    }
    out
}

/// The index of the first `true`, or the length.
pub open spec fn first_true(found: Seq<bool>) -> nat
    decreases found.len(),
{
    if found.len() == 0 || found[0] {
        0
    } else {
        1 + first_true(found.skip(1))
    }
}

/// The names of some tools, as a list in brackets.
pub open spec fn bin_list(tools: Seq<CandidateModel>) -> Seq<char> {
    "["@ + joined(tools.map_values(|c: CandidateModel| "\""@ + c.bin + "\""@), ", "@) + "]"@
}

/// The template of the first tool that is there.
pub open spec fn template_found(tools: Seq<CandidateModel>, found: Seq<bool>) -> Option<
    Seq<Seq<char>>,
> {
    let k = first_true(found) as int;
    if k < tools.len() && k < found.len() {
        Some(tools[k].template)
    } else {
        None
    }
}

fn first_found(found: &Vec<bool>) -> (r: usize)
    ensures
        r == first_true(found@),
        r <= found@.len(),
{
    let mut i: usize = 0;
    proof {
        assert(found@.skip(0) =~= found@);
    }
    while i < found.len()
        invariant
            i <= found.len(),
            first_true(found@) == i + first_true(found@.skip(i as int)),
        decreases found.len() - i,
    {
        proof {
            assert(found@.skip(i as int)[0] == found@[i as int]);
            assert(found@.skip(i as int).skip(1) =~= found@.skip(i + 1));
        }
        if found[i] {
            return i;
        }
        i += 1;
    }
    i
}

fn list_bins(cands: &Vec<Candidate>) -> (r: String)
    ensures
        r@ == bin_list(candidate_models(cands@)),
{
    let ghost quoted = candidate_models(cands@).map_values(
        |c: CandidateModel| "\""@ + c.bin + "\""@,
    );
    let mut names: Vec<String> = Vec::new();
    let mut i: usize = 0;
    while i < cands.len()
        invariant
            i <= cands.len(),
            quoted == candidate_models(cands@).map_values(
                |c: CandidateModel| "\""@ + c.bin + "\""@,
            ),
            views(names@) == quoted.take(i as int),
        decreases cands.len() - i,
    {
        let name = text::cat3("\"", cands[i].bin, "\"");
        proof {
            text::lemma_views_push(names@, name);
            assert(quoted.take(i + 1) =~= quoted.take(i as int).push(name@));
        }
        names.push(name);
        i += 1;
    }
    proof {
        assert(quoted.take(i as int) =~= quoted);
    }
    text::cat3("[", &text::join(&names, ", "), "]")
}

/// What is said when no capture tool is there.
pub open spec fn no_capture_tool(os: Os) -> Seq<char> {
    "no capture tool found (looked for "@ + bin_list(capture_tools(os))
        + "); set audio.capture_cmd in config"@
}

/// What is said when no playback tool is there.
pub open spec fn no_playback_tool(os: Os) -> Seq<char> {
    "no playback tool found (looked for "@ + bin_list(playback_tools(os))
        + "); set audio.playback_cmd in config"@
}

/// Whether `r` is what the tools that are there lead to.
pub open spec fn is_capture_choice(
    os: Os,
    p: AudioParams,
    found: Seq<bool>,
    r: Result<CaptureCommand, String>,
) -> bool {
    match template_found(capture_tools(os), found) {
        Some(tpl) => r matches Ok(c) && views(c.argv@) == filled(tpl, p, None),
        None => r matches Err(e) && e@ == no_capture_tool(os),
    }
}

/// Decides on a capture command: as configured, else by the first tool that is there. `found`
/// tells of each of [`capture_candidates`] whether it is.
pub fn choose_capture(
    os: Os,
    params: &AudioParams,
    override_cmd: Option<&[String]>,
    found: &Vec<bool>,
) -> (r: Result<CaptureCommand, String>)
    ensures
        match override_cmd {
            Some(tpl) => r matches Ok(c) && views(c.argv@) == filled(views(tpl@), *params, None),
            None => is_capture_choice(os, *params, found@, r),
        },
{
    if let Some(tpl) = override_cmd {
        return Ok(CaptureCommand { argv: fill(tpl, params, None) });
    }
    let cands = capture_candidates(os);
    let k: usize = first_found(found);
    proof {
        assert(candidate_models(cands@).len() == cands@.len());
    }
    if k < cands.len() && k < found.len() {
        proof {
            assert(capture_tools(os)[k as int] == cands@[k as int]@);
        }
        return Ok(CaptureCommand { argv: fill(cands[k].template.as_slice(), params, None) });
    }
    Err(
        text::cat3(
            "no capture tool found (looked for ",
            &list_bins(&cands),
            "); set audio.capture_cmd in config",
        ),
    )
}

/// The capture command: as configured, else that of the first tool which is found. The tools are
/// searched for only where no command is configured.
pub fn resolve_capture(
    os: Os,
    params: &AudioParams,
    override_cmd: Option<&[String]>,
    search: &mut Search,
) -> (r: Result<CaptureCommand, String>)
    ensures
        match override_cmd {
            Some(tpl) => {
                &&& r matches Ok(c)
                &&& views(c.argv@) == filled(views(tpl@), *params, None)
                &&& final(search).log() == old(search).log()
            },
            None => {
                &&& looked_for(old(search).log(), final(search).log(), capture_tools(os))
                &&& is_capture_choice(
                    os,
                    *params,
                    hits(added(old(search).log(), final(search).log())),
                    r,
                )
            },
        },
{
    let found = match override_cmd {
        Some(_) => Vec::new(),
        None => look_for(&capture_candidates(os), search),
    };
    choose_capture(os, params, override_cmd, &found)
}

/// Whether a template names no file, so that the samples are piped.
pub open spec fn is_piped(template: Seq<Seq<char>>) -> bool {
    forall|i: int| 0 <= i < template.len() ==> !contains_text(#[trigger] template[i], "{file}"@)
}

fn names_no_file(template: &[String]) -> (r: bool)
    ensures
        r == is_piped(views(template@)),
{
    let mut i: usize = 0;
    while i < template.len()
        invariant
            i <= template.len(),
            forall|j: int| 0 <= j < i ==> !contains_text(#[trigger] views(template@)[j], "{file}"@),
        decreases template.len() - i,
    {
        if text::contains(&template[i], "{file}") {
            proof {
                assert(contains_text(views(template@)[i as int], "{file}"@));
            }
            return false;
        }
        i += 1;
    }
    true
}

/// Whether `r` is what the tools that are there lead to.
pub open spec fn is_playback_choice(
    os: Os,
    file: Seq<char>,
    p: AudioParams,
    found: Seq<bool>,
    r: Result<PlaybackCommand, String>,
) -> bool {
    match template_found(playback_tools(os), found) {
        Some(tpl) => r matches Ok(c) && views(c.argv@) == filled(tpl, p, Some(file)) && !c.via_stdin,
        None => r matches Err(e) && e@ == no_playback_tool(os),
    }
}

/// Decides on a playback command: as configured, else by the first tool that is there. `found`
/// tells of each of [`playback_candidates`] whether it is.
pub fn choose_playback(
    os: Os,
    file: &str,
    params: &AudioParams,
    override_cmd: Option<&[String]>,
    found: &Vec<bool>,
) -> (r: Result<PlaybackCommand, String>)
    ensures
        match override_cmd {
            Some(tpl) => r matches Ok(c) && views(c.argv@) == filled(
                views(tpl@),
                *params,
                Some(file@),
            ) && c.via_stdin == is_piped(views(tpl@)),
            None => is_playback_choice(os, file@, *params, found@, r),
        },
{
    if let Some(tpl) = override_cmd {
        let via_stdin = names_no_file(tpl);
        return Ok(PlaybackCommand { argv: fill(tpl, params, Some(file)), via_stdin });
    }
    let cands = playback_candidates(os);
    let k: usize = first_found(found);
    proof {
        assert(candidate_models(cands@).len() == cands@.len());
    }
    if k < cands.len() && k < found.len() {
        proof {
            assert(playback_tools(os)[k as int] == cands@[k as int]@);
        }
        return Ok(
            PlaybackCommand {
                argv: fill(cands[k].template.as_slice(), params, Some(file)),
                via_stdin: false,
            },
        );
    }
    Err(
        text::cat3(
            "no playback tool found (looked for ",
            &list_bins(&cands),
            "); set audio.playback_cmd in config",
        ),
    )
}

/// The playback command for a file: as configured, else that of the first tool which is found. The
/// tools are searched for only where no command is configured.
pub fn resolve_playback_file(
    os: Os,
    file: &str,
    params: &AudioParams,
    override_cmd: Option<&[String]>,
    search: &mut Search,
) -> (r: Result<PlaybackCommand, String>)
    ensures
        match override_cmd {
            Some(tpl) => {
                &&& r matches Ok(c)
                &&& views(c.argv@) == filled(views(tpl@), *params, Some(file@))
                &&& c.via_stdin == is_piped(views(tpl@))
                &&& final(search).log() == old(search).log()
            },
            None => {
                &&& looked_for(old(search).log(), final(search).log(), playback_tools(os))
                &&& is_playback_choice(
                    os,
                    file@,
                    *params,
                    hits(added(old(search).log(), final(search).log())),
                    r,
                )
            },
        },
{
    let found = match override_cmd {
        Some(_) => Vec::new(),
        None => look_for(&playback_candidates(os), search),
    };
    choose_playback(os, file, params, override_cmd, &found)
}

/// Whether something was found.
pub open spec fn any_found(found: Seq<bool>) -> bool {
    exists|i: int| 0 <= i < found.len() && #[trigger] found[i]
}

proof fn lemma_first_true_finds(found: Seq<bool>)
    ensures
        first_true(found) < found.len() <==> any_found(found),
    decreases found.len(),
{
    if found.len() > 0 {
        if !found[0] {
            let rest = found.skip(1);
            lemma_first_true_finds(rest);
            if any_found(rest) {
                let i = choose|i: int| 0 <= i < rest.len() && #[trigger] rest[i];
                assert(found[i + 1] == rest[i]);
            }
            if any_found(found) {
                let i = choose|i: int| 0 <= i < found.len() && #[trigger] found[i];
                assert(rest[i - 1] == found[i]);
            }
        } else {
            assert(found[0]);
        }
    }
}

/// Whether a capture tool and a playback tool are there, given which of each were found.
pub fn tools_among(capture: &Vec<bool>, playback: &Vec<bool>) -> (r: (bool, bool))
    ensures
        r == (any_found(capture@), any_found(playback@)),
{
    proof {
        lemma_first_true_finds(capture@);
        lemma_first_true_finds(playback@);
    }
    (first_found(capture) < capture.len(), first_found(playback) < playback.len())
}

/// Whether a capture tool and a playback tool are there: each tool of the system is searched for,
/// those for capture first.
pub fn present_tools(os: Os, search: &mut Search) -> (r: (bool, bool))
    ensures
        looked_for(
            old(search).log(),
            final(search).log(),
            capture_tools(os) + playback_tools(os),
        ),
        ({
            let found = hits(added(old(search).log(), final(search).log()));
            let n = capture_tools(os).len() as int;
            r == (any_found(found.take(n)), any_found(found.skip(n)))
        }),
{
    let ghost start = search.log();
    let capture = look_for(&capture_candidates(os), search);
    let ghost mid = search.log();
    let playback = look_for(&playback_candidates(os), search);
    proof {
        let end = search.log();
        assert(added(start, end) =~= added(start, mid) + added(mid, end));
        assert(names(added(start, end)) =~= names(added(start, mid)) + names(added(mid, end)));
        assert(bins(capture_tools(os) + playback_tools(os)) =~= bins(capture_tools(os)) + bins(
            playback_tools(os),
        ));
        let found = hits(added(start, end));
        let n = capture_tools(os).len() as int;
        assert(names(added(start, mid)).len() == added(start, mid).len());
        assert(bins(capture_tools(os)).len() == n);
        assert(found.take(n) =~= capture@);
        assert(found.skip(n) =~= playback@);
    }
    tools_among(&capture, &playback)
}

/// A template without placeholders stays as it is.
pub proof fn law_plain_words_stay(tok: Seq<char>, p: AudioParams, file: Option<Seq<char>>)
    requires
        !contains_text(tok, "{rate}"@),
        !contains_text(tok, "{channels}"@),
        !contains_text(tok, "{device}"@),
        !contains_text(tok, "{file}"@),
        tok != "{ca_dev}"@,
        tok != "{device:-D}"@,
        !is_device_or(tok),
    ensures
        expanded(tok, p, file) == seq![tok],
{
    text::lemma_text_at_finds(tok, "{rate}"@);
    text::lemma_text_at_finds(tok, "{channels}"@);
    text::lemma_text_at_finds(tok, "{device}"@);
    text::lemma_text_at_finds(tok, "{file}"@);
    assert(text::occurs_at("{rate}"@, "{rate}"@, 0)) by {
        assert("{rate}"@.subrange(0, "{rate}"@.len() as int) =~= "{rate}"@);
    }
    assert(text::occurs_at("{channels}"@, "{channels}"@, 0)) by {
        assert("{channels}"@.subrange(0, "{channels}"@.len() as int) =~= "{channels}"@);
    }
    assert(text::occurs_at("{file}"@, "{file}"@, 0)) by {
        assert("{file}"@.subrange(0, "{file}"@.len() as int) =~= "{file}"@);
    }
}

proof fn lemma_plain_word(w: Seq<char>, p: AudioParams, file: Option<Seq<char>>)
    requires
        forall|i: int| 0 <= i < w.len() ==> #[trigger] w[i] != '{',
    ensures
        expanded(w, p, file) == seq![w],
{
    reveal_strlit("{rate}");
    reveal_strlit("{channels}");
    reveal_strlit("{device}");
    reveal_strlit("{file}");
    reveal_strlit("{ca_dev}");
    reveal_strlit("{device:-D}");
    reveal_strlit("{device|");
    lemma_no_brace(w, "{rate}"@);
    lemma_no_brace(w, "{channels}"@);
    lemma_no_brace(w, "{device}"@);
    lemma_no_brace(w, "{file}"@);
    if is_device_or(w) {
        assert(w[0] == "{device|"@[0]);
    }
    if w == "{ca_dev}"@ || w == "{device:-D}"@ {
        assert(w[0] == '{');
    }
    law_plain_words_stay(w, p, file);
}

proof fn lemma_no_brace(w: Seq<char>, sub: Seq<char>)
    requires
        forall|i: int| 0 <= i < w.len() ==> #[trigger] w[i] != '{',
        sub.len() > 0,
        sub[0] == '{',
    ensures
        !contains_text(w, sub),
{
    if contains_text(w, sub) {
        let i = choose|i: int| text::occurs_at(w, sub, i);
        assert(w.subrange(i, i + sub.len())[0] == w[i]);
    }
}

proof fn lemma_filled_first(w: Seq<char>, rest: Seq<Seq<char>>, p: AudioParams, file: Option<Seq<char>>)
    ensures
        filled(seq![w] + rest, p, file) == expanded(w, p, file) + filled(rest, p, file),
    decreases rest.len(),
{
    let all = seq![w] + rest;
    if rest.len() == 0 {
        assert(all.drop_last() =~= Seq::<Seq<char>>::empty());
        assert(all.last() == w);
        assert(filled(all.drop_last(), p, file) =~= Seq::<Seq<char>>::empty());
        assert(filled(all, p, file) =~= expanded(w, p, file) + filled(rest, p, file));
    } else {
        lemma_filled_first(w, rest.drop_last(), p, file);
        assert(all.drop_last() =~= seq![w] + rest.drop_last());
        assert(all.last() == rest.last());
        assert(filled(all, p, file) =~= expanded(w, p, file) + filled(rest, p, file));
    }
}

/// What a template becomes from one of its characters on.
#[verifier::opaque]
pub open spec fn line_from(
    t: Seq<char>,
    from: int,
    p: AudioParams,
    file: Option<Seq<char>>,
) -> Seq<Seq<char>> {
    filled(pieces(t.skip(from), ' '), p, file)
}

/// A word that stands in a template between two spaces is filled on its own.
proof fn lemma_fill_word(
    t: Seq<char>,
    had: Seq<Seq<char>>,
    from: int,
    w: Seq<char>,
    p: AudioParams,
    file: Option<Seq<char>>,
)
    requires
        line_from(t, 0, p, file) == had + line_from(t, from, p, file),
        0 <= from,
        from + w.len() <= t.len(),
        forall|i: int| 0 <= i < w.len() ==> t[from + i] == #[trigger] w[i] && w[i] != ' ',
        from + w.len() < t.len() ==> t[from + w.len()] == ' ',
    ensures
        from + w.len() < t.len() ==> line_from(t, 0, p, file) == had + expanded(w, p, file)
            + line_from(t, (from + w.len() + 1) as int, p, file),
        from + w.len() == t.len() ==> line_from(t, 0, p, file) == had + expanded(w, p, file),
{
    reveal(line_from);
    let s = t.skip(from);
    let k = w.len() as int;
    assert forall|j: int| 0 <= j < k implies s[j] != ' ' by {
        assert(s[j] == w[j]);
    }
    text::lemma_first_at(s, ' ', k);
    assert(s.take(k) =~= w);
    if k < s.len() {
        let rest = pieces(s.skip(k + 1), ' ');
        assert(s.skip(k + 1) =~= t.skip(from + k + 1));
        assert(pieces(s, ' ') =~= seq![w] + rest);
        lemma_filled_first(w, rest, p, file);
        assert(had + (expanded(w, p, file) + filled(rest, p, file)) =~= had + expanded(w, p, file)
            + filled(rest, p, file));
    } else {
        assert(s =~= w);
        assert(pieces(s, ' ') =~= seq![w] + Seq::<Seq<char>>::empty());
        lemma_filled_first(w, Seq::empty(), p, file);
        assert(filled(pieces(s, ' '), p, file) =~= expanded(w, p, file));
    }
}

#[verifier::rlimit(60)]
#[verifier::spinoff_prover]
proof fn lemma_arecord_capture(p: AudioParams)
    ensures
        filled(
            pieces("arecord -q -t raw -f S16_LE -r {rate} -c {channels} {device:-D} -"@, ' '),
            p,
            None,
        ) == seq![
            "arecord"@,
            "-q"@,
            "-t"@,
            "raw"@,
            "-f"@,
            "S16_LE"@,
            "-r"@,
            decimal(p.rate as nat),
            "-c"@,
            decimal(p.channels as nat),
        ] + (match p.device {
                Some(d) => seq!["-D"@, d@],
                None => Seq::empty(),
        }) + seq![
            "-"@,
        ],
{
    let t = "arecord -q -t raw -f S16_LE -r {rate} -c {channels} {device:-D} -"@;
    let a0 = Seq::<Seq<char>>::empty();
    assert(line_from(t, 0, p, None) =~= a0 + line_from(t, 0, p, None));
    let a1 = a0 + seq!["arecord"@];
    assert(line_from(t, 0, p, None) == a1 + line_from(t, 8, p, None)) by {
        reveal_strlit("arecord -q -t raw -f S16_LE -r {rate} -c {channels} {device:-D} -");
        reveal_strlit("arecord");
        lemma_plain_word("arecord"@, p, None);
        lemma_fill_word(t, a0, 0, "arecord"@, p, None);
    }
    let a2 = a1 + seq!["-q"@];
    assert(line_from(t, 0, p, None) == a2 + line_from(t, 11, p, None)) by {
        reveal_strlit("arecord -q -t raw -f S16_LE -r {rate} -c {channels} {device:-D} -");
        reveal_strlit("-q");
        lemma_plain_word("-q"@, p, None);
        lemma_fill_word(t, a1, 8, "-q"@, p, None);
    }
    let a3 = a2 + seq!["-t"@];
    assert(line_from(t, 0, p, None) == a3 + line_from(t, 14, p, None)) by {
        reveal_strlit("arecord -q -t raw -f S16_LE -r {rate} -c {channels} {device:-D} -");
        reveal_strlit("-t");
        lemma_plain_word("-t"@, p, None);
        lemma_fill_word(t, a2, 11, "-t"@, p, None);
    }
    let a4 = a3 + seq!["raw"@];
    assert(line_from(t, 0, p, None) == a4 + line_from(t, 18, p, None)) by {
        reveal_strlit("arecord -q -t raw -f S16_LE -r {rate} -c {channels} {device:-D} -");
        reveal_strlit("raw");
        lemma_plain_word("raw"@, p, None);
        lemma_fill_word(t, a3, 14, "raw"@, p, None);
    }
    let a5 = a4 + seq!["-f"@];
    assert(line_from(t, 0, p, None) == a5 + line_from(t, 21, p, None)) by {
        reveal_strlit("arecord -q -t raw -f S16_LE -r {rate} -c {channels} {device:-D} -");
        reveal_strlit("-f");
        lemma_plain_word("-f"@, p, None);
        lemma_fill_word(t, a4, 18, "-f"@, p, None);
    }
    let a6 = a5 + seq!["S16_LE"@];
    assert(line_from(t, 0, p, None) == a6 + line_from(t, 28, p, None)) by {
        reveal_strlit("arecord -q -t raw -f S16_LE -r {rate} -c {channels} {device:-D} -");
        reveal_strlit("S16_LE");
        lemma_plain_word("S16_LE"@, p, None);
        lemma_fill_word(t, a5, 21, "S16_LE"@, p, None);
    }
    let a7 = a6 + seq!["-r"@];
    assert(line_from(t, 0, p, None) == a7 + line_from(t, 31, p, None)) by {
        reveal_strlit("arecord -q -t raw -f S16_LE -r {rate} -c {channels} {device:-D} -");
        reveal_strlit("-r");
        lemma_plain_word("-r"@, p, None);
        lemma_fill_word(t, a6, 28, "-r"@, p, None);
    }
    let a8 = a7 + seq![decimal(p.rate as nat)];
    assert(line_from(t, 0, p, None) == a8 + line_from(t, 38, p, None)) by {
        reveal_strlit("arecord -q -t raw -f S16_LE -r {rate} -c {channels} {device:-D} -");
        reveal_strlit("{rate}");
        reveal_strlit("{channels}");
        reveal_strlit("{file}");
        reveal_strlit("{ca_dev}");
        reveal_strlit("{device:-D}");
        reveal_strlit("{device|");
        lemma_fill_word(t, a7, 31, "{rate}"@, p, None);
    }
    let a9 = a8 + seq!["-c"@];
    assert(line_from(t, 0, p, None) == a9 + line_from(t, 41, p, None)) by {
        reveal_strlit("arecord -q -t raw -f S16_LE -r {rate} -c {channels} {device:-D} -");
        reveal_strlit("-c");
        lemma_plain_word("-c"@, p, None);
        lemma_fill_word(t, a8, 38, "-c"@, p, None);
    }
    let a10 = a9 + seq![decimal(p.channels as nat)];
    assert(line_from(t, 0, p, None) == a10 + line_from(t, 52, p, None)) by {
        reveal_strlit("arecord -q -t raw -f S16_LE -r {rate} -c {channels} {device:-D} -");
        reveal_strlit("{channels}");
        reveal_strlit("{rate}");
        reveal_strlit("{file}");
        reveal_strlit("{ca_dev}");
        reveal_strlit("{device:-D}");
        reveal_strlit("{device|");
        lemma_fill_word(t, a9, 41, "{channels}"@, p, None);
    }
    let a11 = a10 + (match p.device {
            Some(d) => seq!["-D"@, d@],
            None => Seq::empty(),
    });
    assert(line_from(t, 0, p, None) == a11 + line_from(t, 64, p, None)) by {
        reveal_strlit("arecord -q -t raw -f S16_LE -r {rate} -c {channels} {device:-D} -");
        reveal_strlit("{device:-D}");
        reveal_strlit("{rate}");
        reveal_strlit("{channels}");
        reveal_strlit("{file}");
        reveal_strlit("{ca_dev}");
        reveal_strlit("{device|");
        lemma_fill_word(t, a10, 52, "{device:-D}"@, p, None);
    }
    let a12 = a11 + seq!["-"@];
    assert(line_from(t, 0, p, None) == a12) by {
        reveal_strlit("arecord -q -t raw -f S16_LE -r {rate} -c {channels} {device:-D} -");
        reveal_strlit("-");
        lemma_plain_word("-"@, p, None);
        lemma_fill_word(t, a11, 64, "-"@, p, None);
    }
    assert(filled(pieces(t, ' '), p, None) == line_from(t, 0, p, None)) by {
        reveal(line_from);
        assert(t.skip(0) =~= t);
    }
    assert(a12 =~= seq![
            "arecord"@,
            "-q"@,
            "-t"@,
            "raw"@,
            "-f"@,
            "S16_LE"@,
            "-r"@,
            decimal(p.rate as nat),
            "-c"@,
            decimal(p.channels as nat),
        ] + (match p.device {
                Some(d) => seq!["-D"@, d@],
                None => Seq::empty(),
        }) + seq![
            "-"@,
    ]);
}

#[verifier::rlimit(60)]
#[verifier::spinoff_prover]
proof fn lemma_alsa_capture(p: AudioParams)
    ensures
        filled(
            pieces("ffmpeg -hide_banner -loglevel error -f alsa -i {device|default} -ac {channels} -ar {rate} -f s16le -"@, ' '),
            p,
            None,
        ) == seq![
            "ffmpeg"@,
            "-hide_banner"@,
            "-loglevel"@,
            "error"@,
            "-f"@,
            "alsa"@,
            "-i"@,
            match p.device {
                Some(d) => d@,
                None => "default"@,
            },
            "-ac"@,
            decimal(p.channels as nat),
            "-ar"@,
            decimal(p.rate as nat),
            "-f"@,
            "s16le"@,
            "-"@,
        ],
{
    let t = "ffmpeg -hide_banner -loglevel error -f alsa -i {device|default} -ac {channels} -ar {rate} -f s16le -"@;
    let a0 = Seq::<Seq<char>>::empty();
    assert(line_from(t, 0, p, None) =~= a0 + line_from(t, 0, p, None));
    let a1 = a0 + seq!["ffmpeg"@];
    assert(line_from(t, 0, p, None) == a1 + line_from(t, 7, p, None)) by {
        reveal_strlit("ffmpeg -hide_banner -loglevel error -f alsa -i {device|default} -ac {channels} -ar {rate} -f s16le -");
        reveal_strlit("ffmpeg");
        lemma_plain_word("ffmpeg"@, p, None);
        lemma_fill_word(t, a0, 0, "ffmpeg"@, p, None);
    }
    let a2 = a1 + seq!["-hide_banner"@];
    assert(line_from(t, 0, p, None) == a2 + line_from(t, 20, p, None)) by {
        reveal_strlit("ffmpeg -hide_banner -loglevel error -f alsa -i {device|default} -ac {channels} -ar {rate} -f s16le -");
        reveal_strlit("-hide_banner");
        lemma_plain_word("-hide_banner"@, p, None);
        lemma_fill_word(t, a1, 7, "-hide_banner"@, p, None);
    }
    let a3 = a2 + seq!["-loglevel"@];
    assert(line_from(t, 0, p, None) == a3 + line_from(t, 30, p, None)) by {
        reveal_strlit("ffmpeg -hide_banner -loglevel error -f alsa -i {device|default} -ac {channels} -ar {rate} -f s16le -");
        reveal_strlit("-loglevel");
        lemma_plain_word("-loglevel"@, p, None);
        lemma_fill_word(t, a2, 20, "-loglevel"@, p, None);
    }
    let a4 = a3 + seq!["error"@];
    assert(line_from(t, 0, p, None) == a4 + line_from(t, 36, p, None)) by {
        reveal_strlit("ffmpeg -hide_banner -loglevel error -f alsa -i {device|default} -ac {channels} -ar {rate} -f s16le -");
        reveal_strlit("error");
        lemma_plain_word("error"@, p, None);
        lemma_fill_word(t, a3, 30, "error"@, p, None);
    }
    let a5 = a4 + seq!["-f"@];
    assert(line_from(t, 0, p, None) == a5 + line_from(t, 39, p, None)) by {
        reveal_strlit("ffmpeg -hide_banner -loglevel error -f alsa -i {device|default} -ac {channels} -ar {rate} -f s16le -");
        reveal_strlit("-f");
        lemma_plain_word("-f"@, p, None);
        lemma_fill_word(t, a4, 36, "-f"@, p, None);
    }
    let a6 = a5 + seq!["alsa"@];
    assert(line_from(t, 0, p, None) == a6 + line_from(t, 44, p, None)) by {
        reveal_strlit("ffmpeg -hide_banner -loglevel error -f alsa -i {device|default} -ac {channels} -ar {rate} -f s16le -");
        reveal_strlit("alsa");
        lemma_plain_word("alsa"@, p, None);
        lemma_fill_word(t, a5, 39, "alsa"@, p, None);
    }
    let a7 = a6 + seq!["-i"@];
    assert(line_from(t, 0, p, None) == a7 + line_from(t, 47, p, None)) by {
        reveal_strlit("ffmpeg -hide_banner -loglevel error -f alsa -i {device|default} -ac {channels} -ar {rate} -f s16le -");
        reveal_strlit("-i");
        lemma_plain_word("-i"@, p, None);
        lemma_fill_word(t, a6, 44, "-i"@, p, None);
    }
    let a8 = a7 + seq![match p.device {
            Some(d) => d@,
            None => "default"@,
    }];
    assert(line_from(t, 0, p, None) == a8 + line_from(t, 64, p, None)) by {
        reveal_strlit("ffmpeg -hide_banner -loglevel error -f alsa -i {device|default} -ac {channels} -ar {rate} -f s16le -");
        reveal_strlit("{device|default}");
        reveal_strlit("{rate}");
        reveal_strlit("{channels}");
        reveal_strlit("{file}");
        reveal_strlit("{ca_dev}");
        reveal_strlit("{device:-D}");
        reveal_strlit("{device|");
        reveal_strlit("default");
        assert("{device|default}"@.subrange(8, 15) =~= "default"@);
        assert("{device|"@ =~= "{device|default}"@.take(8));
        lemma_fill_word(t, a7, 47, "{device|default}"@, p, None);
    }
    let a9 = a8 + seq!["-ac"@];
    assert(line_from(t, 0, p, None) == a9 + line_from(t, 68, p, None)) by {
        reveal_strlit("ffmpeg -hide_banner -loglevel error -f alsa -i {device|default} -ac {channels} -ar {rate} -f s16le -");
        reveal_strlit("-ac");
        lemma_plain_word("-ac"@, p, None);
        lemma_fill_word(t, a8, 64, "-ac"@, p, None);
    }
    let a10 = a9 + seq![decimal(p.channels as nat)];
    assert(line_from(t, 0, p, None) == a10 + line_from(t, 79, p, None)) by {
        reveal_strlit("ffmpeg -hide_banner -loglevel error -f alsa -i {device|default} -ac {channels} -ar {rate} -f s16le -");
        reveal_strlit("{channels}");
        reveal_strlit("{rate}");
        reveal_strlit("{file}");
        reveal_strlit("{ca_dev}");
        reveal_strlit("{device:-D}");
        reveal_strlit("{device|");
        lemma_fill_word(t, a9, 68, "{channels}"@, p, None);
    }
    let a11 = a10 + seq!["-ar"@];
    assert(line_from(t, 0, p, None) == a11 + line_from(t, 83, p, None)) by {
        reveal_strlit("ffmpeg -hide_banner -loglevel error -f alsa -i {device|default} -ac {channels} -ar {rate} -f s16le -");
        reveal_strlit("-ar");
        lemma_plain_word("-ar"@, p, None);
        lemma_fill_word(t, a10, 79, "-ar"@, p, None);
    }
    let a12 = a11 + seq![decimal(p.rate as nat)];
    assert(line_from(t, 0, p, None) == a12 + line_from(t, 90, p, None)) by {
        reveal_strlit("ffmpeg -hide_banner -loglevel error -f alsa -i {device|default} -ac {channels} -ar {rate} -f s16le -");
        reveal_strlit("{rate}");
        reveal_strlit("{channels}");
        reveal_strlit("{file}");
        reveal_strlit("{ca_dev}");
        reveal_strlit("{device:-D}");
        reveal_strlit("{device|");
        lemma_fill_word(t, a11, 83, "{rate}"@, p, None);
    }
    let a13 = a12 + seq!["-f"@];
    assert(line_from(t, 0, p, None) == a13 + line_from(t, 93, p, None)) by {
        reveal_strlit("ffmpeg -hide_banner -loglevel error -f alsa -i {device|default} -ac {channels} -ar {rate} -f s16le -");
        reveal_strlit("-f");
        lemma_plain_word("-f"@, p, None);
        lemma_fill_word(t, a12, 90, "-f"@, p, None);
    }
    let a14 = a13 + seq!["s16le"@];
    assert(line_from(t, 0, p, None) == a14 + line_from(t, 99, p, None)) by {
        reveal_strlit("ffmpeg -hide_banner -loglevel error -f alsa -i {device|default} -ac {channels} -ar {rate} -f s16le -");
        reveal_strlit("s16le");
        lemma_plain_word("s16le"@, p, None);
        lemma_fill_word(t, a13, 93, "s16le"@, p, None);
    }
    let a15 = a14 + seq!["-"@];
    assert(line_from(t, 0, p, None) == a15) by {
        reveal_strlit("ffmpeg -hide_banner -loglevel error -f alsa -i {device|default} -ac {channels} -ar {rate} -f s16le -");
        reveal_strlit("-");
        lemma_plain_word("-"@, p, None);
        lemma_fill_word(t, a14, 99, "-"@, p, None);
    }
    assert(filled(pieces(t, ' '), p, None) == line_from(t, 0, p, None)) by {
        reveal(line_from);
        assert(t.skip(0) =~= t);
    }
    assert(a15 =~= seq![
            "ffmpeg"@,
            "-hide_banner"@,
            "-loglevel"@,
            "error"@,
            "-f"@,
            "alsa"@,
            "-i"@,
            match p.device {
                Some(d) => d@,
                None => "default"@,
            },
            "-ac"@,
            decimal(p.channels as nat),
            "-ar"@,
            decimal(p.rate as nat),
            "-f"@,
            "s16le"@,
            "-"@,
    ]);
}

#[verifier::rlimit(60)]
#[verifier::spinoff_prover]
proof fn lemma_rec_capture(p: AudioParams)
    ensures
        filled(
            pieces("rec -q -t raw -b 16 -e signed-integer -r {rate} -c {channels} -"@, ' '),
            p,
            None,
        ) == seq![
            "rec"@,
            "-q"@,
            "-t"@,
            "raw"@,
            "-b"@,
            "16"@,
            "-e"@,
            "signed-integer"@,
            "-r"@,
            decimal(p.rate as nat),
            "-c"@,
            decimal(p.channels as nat),
            "-"@,
        ],
{
    let t = "rec -q -t raw -b 16 -e signed-integer -r {rate} -c {channels} -"@;
    let a0 = Seq::<Seq<char>>::empty();
    assert(line_from(t, 0, p, None) =~= a0 + line_from(t, 0, p, None));
    let a1 = a0 + seq!["rec"@];
    assert(line_from(t, 0, p, None) == a1 + line_from(t, 4, p, None)) by {
        reveal_strlit("rec -q -t raw -b 16 -e signed-integer -r {rate} -c {channels} -");
        reveal_strlit("rec");
        lemma_plain_word("rec"@, p, None);
        lemma_fill_word(t, a0, 0, "rec"@, p, None);
    }
    let a2 = a1 + seq!["-q"@];
    assert(line_from(t, 0, p, None) == a2 + line_from(t, 7, p, None)) by {
        reveal_strlit("rec -q -t raw -b 16 -e signed-integer -r {rate} -c {channels} -");
        reveal_strlit("-q");
        lemma_plain_word("-q"@, p, None);
        lemma_fill_word(t, a1, 4, "-q"@, p, None);
    }
    let a3 = a2 + seq!["-t"@];
    assert(line_from(t, 0, p, None) == a3 + line_from(t, 10, p, None)) by {
        reveal_strlit("rec -q -t raw -b 16 -e signed-integer -r {rate} -c {channels} -");
        reveal_strlit("-t");
        lemma_plain_word("-t"@, p, None);
        lemma_fill_word(t, a2, 7, "-t"@, p, None);
    }
    let a4 = a3 + seq!["raw"@];
    assert(line_from(t, 0, p, None) == a4 + line_from(t, 14, p, None)) by {
        reveal_strlit("rec -q -t raw -b 16 -e signed-integer -r {rate} -c {channels} -");
        reveal_strlit("raw");
        lemma_plain_word("raw"@, p, None);
        lemma_fill_word(t, a3, 10, "raw"@, p, None);
    }
    let a5 = a4 + seq!["-b"@];
    assert(line_from(t, 0, p, None) == a5 + line_from(t, 17, p, None)) by {
        reveal_strlit("rec -q -t raw -b 16 -e signed-integer -r {rate} -c {channels} -");
        reveal_strlit("-b");
        lemma_plain_word("-b"@, p, None);
        lemma_fill_word(t, a4, 14, "-b"@, p, None);
    }
    let a6 = a5 + seq!["16"@];
    assert(line_from(t, 0, p, None) == a6 + line_from(t, 20, p, None)) by {
        reveal_strlit("rec -q -t raw -b 16 -e signed-integer -r {rate} -c {channels} -");
        reveal_strlit("16");
        lemma_plain_word("16"@, p, None);
        lemma_fill_word(t, a5, 17, "16"@, p, None);
    }
    let a7 = a6 + seq!["-e"@];
    assert(line_from(t, 0, p, None) == a7 + line_from(t, 23, p, None)) by {
        reveal_strlit("rec -q -t raw -b 16 -e signed-integer -r {rate} -c {channels} -");
        reveal_strlit("-e");
        lemma_plain_word("-e"@, p, None);
        lemma_fill_word(t, a6, 20, "-e"@, p, None);
    }
    let a8 = a7 + seq!["signed-integer"@];
    assert(line_from(t, 0, p, None) == a8 + line_from(t, 38, p, None)) by {
        reveal_strlit("rec -q -t raw -b 16 -e signed-integer -r {rate} -c {channels} -");
        reveal_strlit("signed-integer");
        lemma_plain_word("signed-integer"@, p, None);
        lemma_fill_word(t, a7, 23, "signed-integer"@, p, None);
    }
    let a9 = a8 + seq!["-r"@];
    assert(line_from(t, 0, p, None) == a9 + line_from(t, 41, p, None)) by {
        reveal_strlit("rec -q -t raw -b 16 -e signed-integer -r {rate} -c {channels} -");
        reveal_strlit("-r");
        lemma_plain_word("-r"@, p, None);
        lemma_fill_word(t, a8, 38, "-r"@, p, None);
    }
    let a10 = a9 + seq![decimal(p.rate as nat)];
    assert(line_from(t, 0, p, None) == a10 + line_from(t, 48, p, None)) by {
        reveal_strlit("rec -q -t raw -b 16 -e signed-integer -r {rate} -c {channels} -");
        reveal_strlit("{rate}");
        reveal_strlit("{channels}");
        reveal_strlit("{file}");
        reveal_strlit("{ca_dev}");
        reveal_strlit("{device:-D}");
        reveal_strlit("{device|");
        lemma_fill_word(t, a9, 41, "{rate}"@, p, None);
    }
    let a11 = a10 + seq!["-c"@];
    assert(line_from(t, 0, p, None) == a11 + line_from(t, 51, p, None)) by {
        reveal_strlit("rec -q -t raw -b 16 -e signed-integer -r {rate} -c {channels} -");
        reveal_strlit("-c");
        lemma_plain_word("-c"@, p, None);
        lemma_fill_word(t, a10, 48, "-c"@, p, None);
    }
    let a12 = a11 + seq![decimal(p.channels as nat)];
    assert(line_from(t, 0, p, None) == a12 + line_from(t, 62, p, None)) by {
        reveal_strlit("rec -q -t raw -b 16 -e signed-integer -r {rate} -c {channels} -");
        reveal_strlit("{channels}");
        reveal_strlit("{rate}");
        reveal_strlit("{file}");
        reveal_strlit("{ca_dev}");
        reveal_strlit("{device:-D}");
        reveal_strlit("{device|");
        lemma_fill_word(t, a11, 51, "{channels}"@, p, None);
    }
    let a13 = a12 + seq!["-"@];
    assert(line_from(t, 0, p, None) == a13) by {
        reveal_strlit("rec -q -t raw -b 16 -e signed-integer -r {rate} -c {channels} -");
        reveal_strlit("-");
        lemma_plain_word("-"@, p, None);
        lemma_fill_word(t, a12, 62, "-"@, p, None);
    }
    assert(filled(pieces(t, ' '), p, None) == line_from(t, 0, p, None)) by {
        reveal(line_from);
        assert(t.skip(0) =~= t);
    }
    assert(a13 =~= seq![
            "rec"@,
            "-q"@,
            "-t"@,
            "raw"@,
            "-b"@,
            "16"@,
            "-e"@,
            "signed-integer"@,
            "-r"@,
            decimal(p.rate as nat),
            "-c"@,
            decimal(p.channels as nat),
            "-"@,
    ]);
}

#[verifier::rlimit(60)]
#[verifier::spinoff_prover]
proof fn lemma_sox_capture(p: AudioParams)
    ensures
        filled(
            pieces("sox -q {ca_dev} -t raw -b 16 -e signed-integer -r {rate} -c {channels} -"@, ' '),
            p,
            None,
        ) == seq![
            "sox"@,
            "-q"@,
        ] + (match p.device {
                Some(d) => seq!["-t"@, "coreaudio"@, d@],
                None => seq!["-d"@],
        }) + seq![
            "-t"@,
            "raw"@,
            "-b"@,
            "16"@,
            "-e"@,
            "signed-integer"@,
            "-r"@,
            decimal(p.rate as nat),
            "-c"@,
            decimal(p.channels as nat),
            "-"@,
        ],
{
    let t = "sox -q {ca_dev} -t raw -b 16 -e signed-integer -r {rate} -c {channels} -"@;
    let a0 = Seq::<Seq<char>>::empty();
    assert(line_from(t, 0, p, None) =~= a0 + line_from(t, 0, p, None));
    let a1 = a0 + seq!["sox"@];
    assert(line_from(t, 0, p, None) == a1 + line_from(t, 4, p, None)) by {
        reveal_strlit("sox -q {ca_dev} -t raw -b 16 -e signed-integer -r {rate} -c {channels} -");
        reveal_strlit("sox");
        lemma_plain_word("sox"@, p, None);
        lemma_fill_word(t, a0, 0, "sox"@, p, None);
    }
    let a2 = a1 + seq!["-q"@];
    assert(line_from(t, 0, p, None) == a2 + line_from(t, 7, p, None)) by {
        reveal_strlit("sox -q {ca_dev} -t raw -b 16 -e signed-integer -r {rate} -c {channels} -");
        reveal_strlit("-q");
        lemma_plain_word("-q"@, p, None);
        lemma_fill_word(t, a1, 4, "-q"@, p, None);
    }
    let a3 = a2 + (match p.device {
            Some(d) => seq!["-t"@, "coreaudio"@, d@],
            None => seq!["-d"@],
    });
    assert(line_from(t, 0, p, None) == a3 + line_from(t, 16, p, None)) by {
        reveal_strlit("sox -q {ca_dev} -t raw -b 16 -e signed-integer -r {rate} -c {channels} -");
        reveal_strlit("{ca_dev}");
        reveal_strlit("{rate}");
        reveal_strlit("{channels}");
        reveal_strlit("{file}");
        reveal_strlit("{device:-D}");
        reveal_strlit("{device|");
        lemma_fill_word(t, a2, 7, "{ca_dev}"@, p, None);
    }
    let a4 = a3 + seq!["-t"@];
    assert(line_from(t, 0, p, None) == a4 + line_from(t, 19, p, None)) by {
        reveal_strlit("sox -q {ca_dev} -t raw -b 16 -e signed-integer -r {rate} -c {channels} -");
        reveal_strlit("-t");
        lemma_plain_word("-t"@, p, None);
        lemma_fill_word(t, a3, 16, "-t"@, p, None);
    }
    let a5 = a4 + seq!["raw"@];
    assert(line_from(t, 0, p, None) == a5 + line_from(t, 23, p, None)) by {
        reveal_strlit("sox -q {ca_dev} -t raw -b 16 -e signed-integer -r {rate} -c {channels} -");
        reveal_strlit("raw");
        lemma_plain_word("raw"@, p, None);
        lemma_fill_word(t, a4, 19, "raw"@, p, None);
    }
    let a6 = a5 + seq!["-b"@];
    assert(line_from(t, 0, p, None) == a6 + line_from(t, 26, p, None)) by {
        reveal_strlit("sox -q {ca_dev} -t raw -b 16 -e signed-integer -r {rate} -c {channels} -");
        reveal_strlit("-b");
        lemma_plain_word("-b"@, p, None);
        lemma_fill_word(t, a5, 23, "-b"@, p, None);
    }
    let a7 = a6 + seq!["16"@];
    assert(line_from(t, 0, p, None) == a7 + line_from(t, 29, p, None)) by {
        reveal_strlit("sox -q {ca_dev} -t raw -b 16 -e signed-integer -r {rate} -c {channels} -");
        reveal_strlit("16");
        lemma_plain_word("16"@, p, None);
        lemma_fill_word(t, a6, 26, "16"@, p, None);
    }
    let a8 = a7 + seq!["-e"@];
    assert(line_from(t, 0, p, None) == a8 + line_from(t, 32, p, None)) by {
        reveal_strlit("sox -q {ca_dev} -t raw -b 16 -e signed-integer -r {rate} -c {channels} -");
        reveal_strlit("-e");
        lemma_plain_word("-e"@, p, None);
        lemma_fill_word(t, a7, 29, "-e"@, p, None);
    }
    let a9 = a8 + seq!["signed-integer"@];
    assert(line_from(t, 0, p, None) == a9 + line_from(t, 47, p, None)) by {
        reveal_strlit("sox -q {ca_dev} -t raw -b 16 -e signed-integer -r {rate} -c {channels} -");
        reveal_strlit("signed-integer");
        lemma_plain_word("signed-integer"@, p, None);
        lemma_fill_word(t, a8, 32, "signed-integer"@, p, None);
    }
    let a10 = a9 + seq!["-r"@];
    assert(line_from(t, 0, p, None) == a10 + line_from(t, 50, p, None)) by {
        reveal_strlit("sox -q {ca_dev} -t raw -b 16 -e signed-integer -r {rate} -c {channels} -");
        reveal_strlit("-r");
        lemma_plain_word("-r"@, p, None);
        lemma_fill_word(t, a9, 47, "-r"@, p, None);
    }
    let a11 = a10 + seq![decimal(p.rate as nat)];
    assert(line_from(t, 0, p, None) == a11 + line_from(t, 57, p, None)) by {
        reveal_strlit("sox -q {ca_dev} -t raw -b 16 -e signed-integer -r {rate} -c {channels} -");
        reveal_strlit("{rate}");
        reveal_strlit("{channels}");
        reveal_strlit("{file}");
        reveal_strlit("{ca_dev}");
        reveal_strlit("{device:-D}");
        reveal_strlit("{device|");
        lemma_fill_word(t, a10, 50, "{rate}"@, p, None);
    }
    let a12 = a11 + seq!["-c"@];
    assert(line_from(t, 0, p, None) == a12 + line_from(t, 60, p, None)) by {
        reveal_strlit("sox -q {ca_dev} -t raw -b 16 -e signed-integer -r {rate} -c {channels} -");
        reveal_strlit("-c");
        lemma_plain_word("-c"@, p, None);
        lemma_fill_word(t, a11, 57, "-c"@, p, None);
    }
    let a13 = a12 + seq![decimal(p.channels as nat)];
    assert(line_from(t, 0, p, None) == a13 + line_from(t, 71, p, None)) by {
        reveal_strlit("sox -q {ca_dev} -t raw -b 16 -e signed-integer -r {rate} -c {channels} -");
        reveal_strlit("{channels}");
        reveal_strlit("{rate}");
        reveal_strlit("{file}");
        reveal_strlit("{ca_dev}");
        reveal_strlit("{device:-D}");
        reveal_strlit("{device|");
        lemma_fill_word(t, a12, 60, "{channels}"@, p, None);
    }
    let a14 = a13 + seq!["-"@];
    assert(line_from(t, 0, p, None) == a14) by {
        reveal_strlit("sox -q {ca_dev} -t raw -b 16 -e signed-integer -r {rate} -c {channels} -");
        reveal_strlit("-");
        lemma_plain_word("-"@, p, None);
        lemma_fill_word(t, a13, 71, "-"@, p, None);
    }
    assert(filled(pieces(t, ' '), p, None) == line_from(t, 0, p, None)) by {
        reveal(line_from);
        assert(t.skip(0) =~= t);
    }
    assert(a14 =~= seq![
            "sox"@,
            "-q"@,
        ] + (match p.device {
                Some(d) => seq!["-t"@, "coreaudio"@, d@],
                None => seq!["-d"@],
        }) + seq![
            "-t"@,
            "raw"@,
            "-b"@,
            "16"@,
            "-e"@,
            "signed-integer"@,
            "-r"@,
            decimal(p.rate as nat),
            "-c"@,
            decimal(p.channels as nat),
            "-"@,
    ]);
}

#[verifier::rlimit(60)]
#[verifier::spinoff_prover]
proof fn lemma_avfoundation_capture(p: AudioParams)
    ensures
        filled(
            pieces("ffmpeg -hide_banner -loglevel error -f avfoundation -i {device|:0} -ac {channels} -ar {rate} -f s16le -"@, ' '),
            p,
            None,
        ) == seq![
            "ffmpeg"@,
            "-hide_banner"@,
            "-loglevel"@,
            "error"@,
            "-f"@,
            "avfoundation"@,
            "-i"@,
            match p.device {
                Some(d) => d@,
                None => ":0"@,
            },
            "-ac"@,
            decimal(p.channels as nat),
            "-ar"@,
            decimal(p.rate as nat),
            "-f"@,
            "s16le"@,
            "-"@,
        ],
{
    let t = "ffmpeg -hide_banner -loglevel error -f avfoundation -i {device|:0} -ac {channels} -ar {rate} -f s16le -"@;
    let a0 = Seq::<Seq<char>>::empty();
    assert(line_from(t, 0, p, None) =~= a0 + line_from(t, 0, p, None));
    let a1 = a0 + seq!["ffmpeg"@];
    assert(line_from(t, 0, p, None) == a1 + line_from(t, 7, p, None)) by {
        reveal_strlit("ffmpeg -hide_banner -loglevel error -f avfoundation -i {device|:0} -ac {channels} -ar {rate} -f s16le -");
        reveal_strlit("ffmpeg");
        lemma_plain_word("ffmpeg"@, p, None);
        lemma_fill_word(t, a0, 0, "ffmpeg"@, p, None);
    }
    let a2 = a1 + seq!["-hide_banner"@];
    assert(line_from(t, 0, p, None) == a2 + line_from(t, 20, p, None)) by {
        reveal_strlit("ffmpeg -hide_banner -loglevel error -f avfoundation -i {device|:0} -ac {channels} -ar {rate} -f s16le -");
        reveal_strlit("-hide_banner");
        lemma_plain_word("-hide_banner"@, p, None);
        lemma_fill_word(t, a1, 7, "-hide_banner"@, p, None);
    }
    let a3 = a2 + seq!["-loglevel"@];
    assert(line_from(t, 0, p, None) == a3 + line_from(t, 30, p, None)) by {
        reveal_strlit("ffmpeg -hide_banner -loglevel error -f avfoundation -i {device|:0} -ac {channels} -ar {rate} -f s16le -");
        reveal_strlit("-loglevel");
        lemma_plain_word("-loglevel"@, p, None);
        lemma_fill_word(t, a2, 20, "-loglevel"@, p, None);
    }
    let a4 = a3 + seq!["error"@];
    assert(line_from(t, 0, p, None) == a4 + line_from(t, 36, p, None)) by {
        reveal_strlit("ffmpeg -hide_banner -loglevel error -f avfoundation -i {device|:0} -ac {channels} -ar {rate} -f s16le -");
        reveal_strlit("error");
        lemma_plain_word("error"@, p, None);
        lemma_fill_word(t, a3, 30, "error"@, p, None);
    }
    let a5 = a4 + seq!["-f"@];
    assert(line_from(t, 0, p, None) == a5 + line_from(t, 39, p, None)) by {
        reveal_strlit("ffmpeg -hide_banner -loglevel error -f avfoundation -i {device|:0} -ac {channels} -ar {rate} -f s16le -");
        reveal_strlit("-f");
        lemma_plain_word("-f"@, p, None);
        lemma_fill_word(t, a4, 36, "-f"@, p, None);
    }
    let a6 = a5 + seq!["avfoundation"@];
    assert(line_from(t, 0, p, None) == a6 + line_from(t, 52, p, None)) by {
        reveal_strlit("ffmpeg -hide_banner -loglevel error -f avfoundation -i {device|:0} -ac {channels} -ar {rate} -f s16le -");
        reveal_strlit("avfoundation");
        lemma_plain_word("avfoundation"@, p, None);
        lemma_fill_word(t, a5, 39, "avfoundation"@, p, None);
    }
    let a7 = a6 + seq!["-i"@];
    assert(line_from(t, 0, p, None) == a7 + line_from(t, 55, p, None)) by {
        reveal_strlit("ffmpeg -hide_banner -loglevel error -f avfoundation -i {device|:0} -ac {channels} -ar {rate} -f s16le -");
        reveal_strlit("-i");
        lemma_plain_word("-i"@, p, None);
        lemma_fill_word(t, a6, 52, "-i"@, p, None);
    }
    let a8 = a7 + seq![match p.device {
            Some(d) => d@,
            None => ":0"@,
    }];
    assert(line_from(t, 0, p, None) == a8 + line_from(t, 67, p, None)) by {
        reveal_strlit("ffmpeg -hide_banner -loglevel error -f avfoundation -i {device|:0} -ac {channels} -ar {rate} -f s16le -");
        reveal_strlit("{device|:0}");
        reveal_strlit("{rate}");
        reveal_strlit("{channels}");
        reveal_strlit("{file}");
        reveal_strlit("{ca_dev}");
        reveal_strlit("{device:-D}");
        reveal_strlit("{device|");
        reveal_strlit(":0");
        assert("{device|:0}"@.subrange(8, 10) =~= ":0"@);
        assert("{device|"@ =~= "{device|:0}"@.take(8));
        assert("{device|:0}"@[7] != "{device:-D}"@[7]);
        lemma_fill_word(t, a7, 55, "{device|:0}"@, p, None);
    }
    let a9 = a8 + seq!["-ac"@];
    assert(line_from(t, 0, p, None) == a9 + line_from(t, 71, p, None)) by {
        reveal_strlit("ffmpeg -hide_banner -loglevel error -f avfoundation -i {device|:0} -ac {channels} -ar {rate} -f s16le -");
        reveal_strlit("-ac");
        lemma_plain_word("-ac"@, p, None);
        lemma_fill_word(t, a8, 67, "-ac"@, p, None);
    }
    let a10 = a9 + seq![decimal(p.channels as nat)];
    assert(line_from(t, 0, p, None) == a10 + line_from(t, 82, p, None)) by {
        reveal_strlit("ffmpeg -hide_banner -loglevel error -f avfoundation -i {device|:0} -ac {channels} -ar {rate} -f s16le -");
        reveal_strlit("{channels}");
        reveal_strlit("{rate}");
        reveal_strlit("{file}");
        reveal_strlit("{ca_dev}");
        reveal_strlit("{device:-D}");
        reveal_strlit("{device|");
        lemma_fill_word(t, a9, 71, "{channels}"@, p, None);
    }
    let a11 = a10 + seq!["-ar"@];
    assert(line_from(t, 0, p, None) == a11 + line_from(t, 86, p, None)) by {
        reveal_strlit("ffmpeg -hide_banner -loglevel error -f avfoundation -i {device|:0} -ac {channels} -ar {rate} -f s16le -");
        reveal_strlit("-ar");
        lemma_plain_word("-ar"@, p, None);
        lemma_fill_word(t, a10, 82, "-ar"@, p, None);
    }
    let a12 = a11 + seq![decimal(p.rate as nat)];
    assert(line_from(t, 0, p, None) == a12 + line_from(t, 93, p, None)) by {
        reveal_strlit("ffmpeg -hide_banner -loglevel error -f avfoundation -i {device|:0} -ac {channels} -ar {rate} -f s16le -");
        reveal_strlit("{rate}");
        reveal_strlit("{channels}");
        reveal_strlit("{file}");
        reveal_strlit("{ca_dev}");
        reveal_strlit("{device:-D}");
        reveal_strlit("{device|");
        lemma_fill_word(t, a11, 86, "{rate}"@, p, None);
    }
    let a13 = a12 + seq!["-f"@];
    assert(line_from(t, 0, p, None) == a13 + line_from(t, 96, p, None)) by {
        reveal_strlit("ffmpeg -hide_banner -loglevel error -f avfoundation -i {device|:0} -ac {channels} -ar {rate} -f s16le -");
        reveal_strlit("-f");
        lemma_plain_word("-f"@, p, None);
        lemma_fill_word(t, a12, 93, "-f"@, p, None);
    }
    let a14 = a13 + seq!["s16le"@];
    assert(line_from(t, 0, p, None) == a14 + line_from(t, 102, p, None)) by {
        reveal_strlit("ffmpeg -hide_banner -loglevel error -f avfoundation -i {device|:0} -ac {channels} -ar {rate} -f s16le -");
        reveal_strlit("s16le");
        lemma_plain_word("s16le"@, p, None);
        lemma_fill_word(t, a13, 96, "s16le"@, p, None);
    }
    let a15 = a14 + seq!["-"@];
    assert(line_from(t, 0, p, None) == a15) by {
        reveal_strlit("ffmpeg -hide_banner -loglevel error -f avfoundation -i {device|:0} -ac {channels} -ar {rate} -f s16le -");
        reveal_strlit("-");
        lemma_plain_word("-"@, p, None);
        lemma_fill_word(t, a14, 102, "-"@, p, None);
    }
    assert(filled(pieces(t, ' '), p, None) == line_from(t, 0, p, None)) by {
        reveal(line_from);
        assert(t.skip(0) =~= t);
    }
    assert(a15 =~= seq![
            "ffmpeg"@,
            "-hide_banner"@,
            "-loglevel"@,
            "error"@,
            "-f"@,
            "avfoundation"@,
            "-i"@,
            match p.device {
                Some(d) => d@,
                None => ":0"@,
            },
            "-ac"@,
            decimal(p.channels as nat),
            "-ar"@,
            decimal(p.rate as nat),
            "-f"@,
            "s16le"@,
            "-"@,
    ]);
}

#[verifier::rlimit(60)]
#[verifier::spinoff_prover]
proof fn lemma_aplay_playback(p: AudioParams, file: Seq<char>)
    ensures
        filled(
            pieces("aplay -q {device:-D} {file}"@, ' '),
            p,
            Some(file),
        ) == seq![
            "aplay"@,
            "-q"@,
        ] + (match p.device {
                Some(d) => seq!["-D"@, d@],
                None => Seq::empty(),
        }) + seq![
            file,
        ],
{
    let t = "aplay -q {device:-D} {file}"@;
    let a0 = Seq::<Seq<char>>::empty();
    assert(line_from(t, 0, p, Some(file)) =~= a0 + line_from(t, 0, p, Some(file)));
    let a1 = a0 + seq!["aplay"@];
    assert(line_from(t, 0, p, Some(file)) == a1 + line_from(t, 6, p, Some(file))) by {
        reveal_strlit("aplay -q {device:-D} {file}");
        reveal_strlit("aplay");
        lemma_plain_word("aplay"@, p, Some(file));
        lemma_fill_word(t, a0, 0, "aplay"@, p, Some(file));
    }
    let a2 = a1 + seq!["-q"@];
    assert(line_from(t, 0, p, Some(file)) == a2 + line_from(t, 9, p, Some(file))) by {
        reveal_strlit("aplay -q {device:-D} {file}");
        reveal_strlit("-q");
        lemma_plain_word("-q"@, p, Some(file));
        lemma_fill_word(t, a1, 6, "-q"@, p, Some(file));
    }
    let a3 = a2 + (match p.device {
            Some(d) => seq!["-D"@, d@],
            None => Seq::empty(),
    });
    assert(line_from(t, 0, p, Some(file)) == a3 + line_from(t, 21, p, Some(file))) by {
        reveal_strlit("aplay -q {device:-D} {file}");
        reveal_strlit("{device:-D}");
        reveal_strlit("{rate}");
        reveal_strlit("{channels}");
        reveal_strlit("{file}");
        reveal_strlit("{ca_dev}");
        reveal_strlit("{device|");
        lemma_fill_word(t, a2, 9, "{device:-D}"@, p, Some(file));
    }
    let a4 = a3 + seq![file];
    assert(line_from(t, 0, p, Some(file)) == a4) by {
        reveal_strlit("aplay -q {device:-D} {file}");
        reveal_strlit("{file}");
        reveal_strlit("{rate}");
        reveal_strlit("{channels}");
        reveal_strlit("{ca_dev}");
        reveal_strlit("{device:-D}");
        reveal_strlit("{device|");
        assert("{file}"@[1] != "{rate}"@[1]);
        lemma_fill_word(t, a3, 21, "{file}"@, p, Some(file));
    }
    assert(filled(pieces(t, ' '), p, Some(file)) == line_from(t, 0, p, Some(file))) by {
        reveal(line_from);
        assert(t.skip(0) =~= t);
    }
    assert(a4 =~= seq![
            "aplay"@,
            "-q"@,
        ] + (match p.device {
                Some(d) => seq!["-D"@, d@],
                None => Seq::empty(),
        }) + seq![
            file,
    ]);
}

#[verifier::rlimit(60)]
#[verifier::spinoff_prover]
proof fn lemma_ffplay_playback(p: AudioParams, file: Seq<char>)
    ensures
        filled(
            pieces("ffplay -autoexit -nodisp -loglevel error {file}"@, ' '),
            p,
            Some(file),
        ) == seq![
            "ffplay"@,
            "-autoexit"@,
            "-nodisp"@,
            "-loglevel"@,
            "error"@,
            file,
        ],
{
    let t = "ffplay -autoexit -nodisp -loglevel error {file}"@;
    let a0 = Seq::<Seq<char>>::empty();
    assert(line_from(t, 0, p, Some(file)) =~= a0 + line_from(t, 0, p, Some(file)));
    let a1 = a0 + seq!["ffplay"@];
    assert(line_from(t, 0, p, Some(file)) == a1 + line_from(t, 7, p, Some(file))) by {
        reveal_strlit("ffplay -autoexit -nodisp -loglevel error {file}");
        reveal_strlit("ffplay");
        lemma_plain_word("ffplay"@, p, Some(file));
        lemma_fill_word(t, a0, 0, "ffplay"@, p, Some(file));
    }
    let a2 = a1 + seq!["-autoexit"@];
    assert(line_from(t, 0, p, Some(file)) == a2 + line_from(t, 17, p, Some(file))) by {
        reveal_strlit("ffplay -autoexit -nodisp -loglevel error {file}");
        reveal_strlit("-autoexit");
        lemma_plain_word("-autoexit"@, p, Some(file));
        lemma_fill_word(t, a1, 7, "-autoexit"@, p, Some(file));
    }
    let a3 = a2 + seq!["-nodisp"@];
    assert(line_from(t, 0, p, Some(file)) == a3 + line_from(t, 25, p, Some(file))) by {
        reveal_strlit("ffplay -autoexit -nodisp -loglevel error {file}");
        reveal_strlit("-nodisp");
        lemma_plain_word("-nodisp"@, p, Some(file));
        lemma_fill_word(t, a2, 17, "-nodisp"@, p, Some(file));
    }
    let a4 = a3 + seq!["-loglevel"@];
    assert(line_from(t, 0, p, Some(file)) == a4 + line_from(t, 35, p, Some(file))) by {
        reveal_strlit("ffplay -autoexit -nodisp -loglevel error {file}");
        reveal_strlit("-loglevel");
        lemma_plain_word("-loglevel"@, p, Some(file));
        lemma_fill_word(t, a3, 25, "-loglevel"@, p, Some(file));
    }
    let a5 = a4 + seq!["error"@];
    assert(line_from(t, 0, p, Some(file)) == a5 + line_from(t, 41, p, Some(file))) by {
        reveal_strlit("ffplay -autoexit -nodisp -loglevel error {file}");
        reveal_strlit("error");
        lemma_plain_word("error"@, p, Some(file));
        lemma_fill_word(t, a4, 35, "error"@, p, Some(file));
    }
    let a6 = a5 + seq![file];
    assert(line_from(t, 0, p, Some(file)) == a6) by {
        reveal_strlit("ffplay -autoexit -nodisp -loglevel error {file}");
        reveal_strlit("{file}");
        reveal_strlit("{rate}");
        reveal_strlit("{channels}");
        reveal_strlit("{ca_dev}");
        reveal_strlit("{device:-D}");
        reveal_strlit("{device|");
        assert("{file}"@[1] != "{rate}"@[1]);
        lemma_fill_word(t, a5, 41, "{file}"@, p, Some(file));
    }
    assert(filled(pieces(t, ' '), p, Some(file)) == line_from(t, 0, p, Some(file))) by {
        reveal(line_from);
        assert(t.skip(0) =~= t);
    }
    assert(a6 =~= seq![
            "ffplay"@,
            "-autoexit"@,
            "-nodisp"@,
            "-loglevel"@,
            "error"@,
            file,
    ]);
}

#[verifier::rlimit(60)]
#[verifier::spinoff_prover]
proof fn lemma_play_playback(p: AudioParams, file: Seq<char>)
    ensures
        filled(
            pieces("play -q {file}"@, ' '),
            p,
            Some(file),
        ) == seq![
            "play"@,
            "-q"@,
            file,
        ],
{
    let t = "play -q {file}"@;
    let a0 = Seq::<Seq<char>>::empty();
    assert(line_from(t, 0, p, Some(file)) =~= a0 + line_from(t, 0, p, Some(file)));
    let a1 = a0 + seq!["play"@];
    assert(line_from(t, 0, p, Some(file)) == a1 + line_from(t, 5, p, Some(file))) by {
        reveal_strlit("play -q {file}");
        reveal_strlit("play");
        lemma_plain_word("play"@, p, Some(file));
        lemma_fill_word(t, a0, 0, "play"@, p, Some(file));
    }
    let a2 = a1 + seq!["-q"@];
    assert(line_from(t, 0, p, Some(file)) == a2 + line_from(t, 8, p, Some(file))) by {
        reveal_strlit("play -q {file}");
        reveal_strlit("-q");
        lemma_plain_word("-q"@, p, Some(file));
        lemma_fill_word(t, a1, 5, "-q"@, p, Some(file));
    }
    let a3 = a2 + seq![file];
    assert(line_from(t, 0, p, Some(file)) == a3) by {
        reveal_strlit("play -q {file}");
        reveal_strlit("{file}");
        reveal_strlit("{rate}");
        reveal_strlit("{channels}");
        reveal_strlit("{ca_dev}");
        reveal_strlit("{device:-D}");
        reveal_strlit("{device|");
        assert("{file}"@[1] != "{rate}"@[1]);
        lemma_fill_word(t, a2, 8, "{file}"@, p, Some(file));
    }
    assert(filled(pieces(t, ' '), p, Some(file)) == line_from(t, 0, p, Some(file))) by {
        reveal(line_from);
        assert(t.skip(0) =~= t);
    }
    assert(a3 =~= seq![
            "play"@,
            "-q"@,
            file,
    ]);
}

#[verifier::rlimit(60)]
#[verifier::spinoff_prover]
proof fn lemma_sox_playback(p: AudioParams, file: Seq<char>)
    ensures
        filled(
            pieces("sox -q -V1 {file} {ca_dev}"@, ' '),
            p,
            Some(file),
        ) == seq![
            "sox"@,
            "-q"@,
            "-V1"@,
            file,
        ] + (match p.device {
                Some(d) => seq!["-t"@, "coreaudio"@, d@],
                None => seq!["-d"@],
        }),
{
    let t = "sox -q -V1 {file} {ca_dev}"@;
    let a0 = Seq::<Seq<char>>::empty();
    assert(line_from(t, 0, p, Some(file)) =~= a0 + line_from(t, 0, p, Some(file)));
    let a1 = a0 + seq!["sox"@];
    assert(line_from(t, 0, p, Some(file)) == a1 + line_from(t, 4, p, Some(file))) by {
        reveal_strlit("sox -q -V1 {file} {ca_dev}");
        reveal_strlit("sox");
        lemma_plain_word("sox"@, p, Some(file));
        lemma_fill_word(t, a0, 0, "sox"@, p, Some(file));
    }
    let a2 = a1 + seq!["-q"@];
    assert(line_from(t, 0, p, Some(file)) == a2 + line_from(t, 7, p, Some(file))) by {
        reveal_strlit("sox -q -V1 {file} {ca_dev}");
        reveal_strlit("-q");
        lemma_plain_word("-q"@, p, Some(file));
        lemma_fill_word(t, a1, 4, "-q"@, p, Some(file));
    }
    let a3 = a2 + seq!["-V1"@];
    assert(line_from(t, 0, p, Some(file)) == a3 + line_from(t, 11, p, Some(file))) by {
        reveal_strlit("sox -q -V1 {file} {ca_dev}");
        reveal_strlit("-V1");
        lemma_plain_word("-V1"@, p, Some(file));
        lemma_fill_word(t, a2, 7, "-V1"@, p, Some(file));
    }
    let a4 = a3 + seq![file];
    assert(line_from(t, 0, p, Some(file)) == a4 + line_from(t, 18, p, Some(file))) by {
        reveal_strlit("sox -q -V1 {file} {ca_dev}");
        reveal_strlit("{file}");
        reveal_strlit("{rate}");
        reveal_strlit("{channels}");
        reveal_strlit("{ca_dev}");
        reveal_strlit("{device:-D}");
        reveal_strlit("{device|");
        assert("{file}"@[1] != "{rate}"@[1]);
        lemma_fill_word(t, a3, 11, "{file}"@, p, Some(file));
    }
    let a5 = a4 + (match p.device {
            Some(d) => seq!["-t"@, "coreaudio"@, d@],
            None => seq!["-d"@],
    });
    assert(line_from(t, 0, p, Some(file)) == a5) by {
        reveal_strlit("sox -q -V1 {file} {ca_dev}");
        reveal_strlit("{ca_dev}");
        reveal_strlit("{rate}");
        reveal_strlit("{channels}");
        reveal_strlit("{file}");
        reveal_strlit("{device:-D}");
        reveal_strlit("{device|");
        lemma_fill_word(t, a4, 18, "{ca_dev}"@, p, Some(file));
    }
    assert(filled(pieces(t, ' '), p, Some(file)) == line_from(t, 0, p, Some(file))) by {
        reveal(line_from);
        assert(t.skip(0) =~= t);
    }
    assert(a5 =~= seq![
            "sox"@,
            "-q"@,
            "-V1"@,
            file,
        ] + (match p.device {
                Some(d) => seq!["-t"@, "coreaudio"@, d@],
                None => seq!["-d"@],
    }));
}

#[verifier::rlimit(60)]
#[verifier::spinoff_prover]
proof fn lemma_afplay_playback(p: AudioParams, file: Seq<char>)
    ensures
        filled(
            pieces("afplay {file}"@, ' '),
            p,
            Some(file),
        ) == seq![
            "afplay"@,
            file,
        ],
{
    let t = "afplay {file}"@;
    let a0 = Seq::<Seq<char>>::empty();
    assert(line_from(t, 0, p, Some(file)) =~= a0 + line_from(t, 0, p, Some(file)));
    let a1 = a0 + seq!["afplay"@];
    assert(line_from(t, 0, p, Some(file)) == a1 + line_from(t, 7, p, Some(file))) by {
        reveal_strlit("afplay {file}");
        reveal_strlit("afplay");
        lemma_plain_word("afplay"@, p, Some(file));
        lemma_fill_word(t, a0, 0, "afplay"@, p, Some(file));
    }
    let a2 = a1 + seq![file];
    assert(line_from(t, 0, p, Some(file)) == a2) by {
        reveal_strlit("afplay {file}");
        reveal_strlit("{file}");
        reveal_strlit("{rate}");
        reveal_strlit("{channels}");
        reveal_strlit("{ca_dev}");
        reveal_strlit("{device:-D}");
        reveal_strlit("{device|");
        assert("{file}"@[1] != "{rate}"@[1]);
        lemma_fill_word(t, a1, 7, "{file}"@, p, Some(file));
    }
    assert(filled(pieces(t, ' '), p, Some(file)) == line_from(t, 0, p, Some(file))) by {
        reveal(line_from);
        assert(t.skip(0) =~= t);
    }
    assert(a2 =~= seq![
            "afplay"@,
            file,
    ]);
}

/// What each capture tool is run with: the rate and the channels behind the tool's own flags for
/// them, the device where one is set and the tool takes one, and raw 16-bit samples as the output.
pub proof fn law_capture_commands_are_these(p: AudioParams)
    ensures
        capture_tools(Os::Linux).len() == 3,
        capture_tools(Os::MacOs).len() == 2,
        capture_tools(Os::Other).len() == 0,
        capture_tools(Os::Linux)[0].bin == "arecord"@,
        filled(capture_tools(Os::Linux)[0].template, p, None) == seq![
            "arecord"@,
            "-q"@,
            "-t"@,
            "raw"@,
            "-f"@,
            "S16_LE"@,
            "-r"@,
            decimal(p.rate as nat),
            "-c"@,
            decimal(p.channels as nat),
        ] + (match p.device {
                Some(d) => seq!["-D"@, d@],
                None => Seq::empty(),
        }) + seq![
            "-"@,
        ],
        capture_tools(Os::Linux)[1].bin == "ffmpeg"@,
        filled(capture_tools(Os::Linux)[1].template, p, None) == seq![
            "ffmpeg"@,
            "-hide_banner"@,
            "-loglevel"@,
            "error"@,
            "-f"@,
            "alsa"@,
            "-i"@,
            match p.device {
                Some(d) => d@,
                None => "default"@,
            },
            "-ac"@,
            decimal(p.channels as nat),
            "-ar"@,
            decimal(p.rate as nat),
            "-f"@,
            "s16le"@,
            "-"@,
        ],
        capture_tools(Os::Linux)[2].bin == "rec"@,
        filled(capture_tools(Os::Linux)[2].template, p, None) == seq![
            "rec"@,
            "-q"@,
            "-t"@,
            "raw"@,
            "-b"@,
            "16"@,
            "-e"@,
            "signed-integer"@,
            "-r"@,
            decimal(p.rate as nat),
            "-c"@,
            decimal(p.channels as nat),
            "-"@,
        ],
        capture_tools(Os::MacOs)[0].bin == "sox"@,
        filled(capture_tools(Os::MacOs)[0].template, p, None) == seq![
            "sox"@,
            "-q"@,
        ] + (match p.device {
                Some(d) => seq!["-t"@, "coreaudio"@, d@],
                None => seq!["-d"@],
        }) + seq![
            "-t"@,
            "raw"@,
            "-b"@,
            "16"@,
            "-e"@,
            "signed-integer"@,
            "-r"@,
            decimal(p.rate as nat),
            "-c"@,
            decimal(p.channels as nat),
            "-"@,
        ],
        capture_tools(Os::MacOs)[1].bin == "ffmpeg"@,
        filled(capture_tools(Os::MacOs)[1].template, p, None) == seq![
            "ffmpeg"@,
            "-hide_banner"@,
            "-loglevel"@,
            "error"@,
            "-f"@,
            "avfoundation"@,
            "-i"@,
            match p.device {
                Some(d) => d@,
                None => ":0"@,
            },
            "-ac"@,
            decimal(p.channels as nat),
            "-ar"@,
            decimal(p.rate as nat),
            "-f"@,
            "s16le"@,
            "-"@,
        ],
{
    lemma_arecord_capture(p);
    lemma_alsa_capture(p);
    lemma_rec_capture(p);
    lemma_sox_capture(p);
    lemma_avfoundation_capture(p);
}

/// What each playback tool is run with: the file, and the device where one is set and the tool
/// takes one.
pub proof fn law_playback_commands_are_these(p: AudioParams, file: Seq<char>)
    ensures
        playback_tools(Os::Linux).len() == 3,
        playback_tools(Os::MacOs).len() == 3,
        playback_tools(Os::Other).len() == 0,
        playback_tools(Os::Linux)[0].bin == "aplay"@,
        filled(playback_tools(Os::Linux)[0].template, p, Some(file)) == seq![
            "aplay"@,
            "-q"@,
        ] + (match p.device {
                Some(d) => seq!["-D"@, d@],
                None => Seq::empty(),
        }) + seq![
            file,
        ],
        playback_tools(Os::Linux)[1].bin == "ffplay"@,
        filled(playback_tools(Os::Linux)[1].template, p, Some(file)) == seq![
            "ffplay"@,
            "-autoexit"@,
            "-nodisp"@,
            "-loglevel"@,
            "error"@,
            file,
        ],
        playback_tools(Os::Linux)[2].bin == "play"@,
        filled(playback_tools(Os::Linux)[2].template, p, Some(file)) == seq![
            "play"@,
            "-q"@,
            file,
        ],
        playback_tools(Os::MacOs)[0].bin == "sox"@,
        filled(playback_tools(Os::MacOs)[0].template, p, Some(file)) == seq![
            "sox"@,
            "-q"@,
            "-V1"@,
            file,
        ] + (match p.device {
                Some(d) => seq!["-t"@, "coreaudio"@, d@],
                None => seq!["-d"@],
        }),
        playback_tools(Os::MacOs)[1].bin == "afplay"@,
        filled(playback_tools(Os::MacOs)[1].template, p, Some(file)) == seq![
            "afplay"@,
            file,
        ],
        playback_tools(Os::MacOs)[2].bin == "ffplay"@,
        filled(playback_tools(Os::MacOs)[2].template, p, Some(file)) == seq![
            "ffplay"@,
            "-autoexit"@,
            "-nodisp"@,
            "-loglevel"@,
            "error"@,
            file,
        ],
{
    lemma_aplay_playback(p, file);
    lemma_ffplay_playback(p, file);
    lemma_play_playback(p, file);
    lemma_sox_playback(p, file);
    lemma_afplay_playback(p, file);
}

/// How `first_true` is recognised.
proof fn lemma_first_true(found: Seq<bool>, k: int)
    requires
        0 <= k <= found.len(),
        forall|j: int| 0 <= j < k ==> !found[j],
        k < found.len() ==> found[k],
    ensures
        first_true(found) == k,
    decreases k,
{
    if k > 0 {
        assert forall|j: int| 0 <= j < k - 1 implies !found.skip(1)[j] by {
            assert(found.skip(1)[j] == found[j + 1]);
        }
        lemma_first_true(found.skip(1), k - 1);
    }
}

/// What `first_true` finds.
proof fn lemma_first_true_is_first(found: Seq<bool>)
    ensures
        first_true(found) <= found.len(),
        first_true(found) < found.len() ==> found[first_true(found) as int],
        forall|j: int| 0 <= j < first_true(found) ==> !found[j],
    decreases found.len(),
{
    if found.len() > 0 && !found[0] {
        let rest = found.skip(1);
        lemma_first_true_is_first(rest);
        assert forall|j: int| 0 <= j < first_true(found) implies !found[j] by {
            if j > 0 {
                assert(!rest[j - 1]);
            }
        }
    }
}

/// Of the tools of a system the first that is there is used, and only where none is there is
/// the choice refused.
pub proof fn law_the_first_tool_that_is_there_is_used(
    tools: Seq<CandidateModel>,
    found: Seq<bool>,
    k: int,
)
    requires
        found.len() == tools.len(),
        0 <= k <= found.len(),
        forall|j: int| 0 <= j < k ==> !found[j],
        k < found.len() ==> found[k],
    ensures
        k < tools.len() ==> template_found(tools, found) == Some(tools[k].template),
        k == tools.len() ==> template_found(tools, found) is None,
{
    lemma_first_true(found, k);
}

/// Whichever tool is there, the capture command asks for the configured rate and the configured
/// channels, each behind the tool's flag for it, names the device where one is configured and the
/// tool takes one, and writes to its output.
pub proof fn law_capture_asks_for_the_configured_sound(
    os: Os,
    p: AudioParams,
    found: Seq<bool>,
    c: CaptureCommand,
)
    requires
        is_capture_choice(os, p, found, Ok(c)),
    ensures
        ({
            let argv = views(c.argv@);
            &&& argv.len() > 0
            &&& argv.last() == "-"@
            &&& exists|i: int|
                0 < i < argv.len() && (argv[i - 1] == "-r"@ || argv[i - 1] == "-ar"@)
                    && #[trigger] argv[i] == decimal(p.rate as nat)
            &&& exists|i: int|
                0 < i < argv.len() && (argv[i - 1] == "-c"@ || argv[i - 1] == "-ac"@)
                    && #[trigger] argv[i] == decimal(p.channels as nat)
            &&& p.device is Some && argv[0] != "rec"@ ==> exists|i: int|
                0 < i < argv.len() && (argv[i - 1] == "-D"@ || argv[i - 1] == "-i"@ || argv[i - 1]
                    == "coreaudio"@) && #[trigger] argv[i] == p.device->0@
        }),
{
    law_capture_commands_are_these(p);
    lemma_first_true_is_first(found);
    let argv = views(c.argv@);
    let k = first_true(found) as int;
    let r = decimal(p.rate as nat);
    let n = decimal(p.channels as nat);
    match os {
        Os::Linux => if k == 0 {
            assert(argv[7] == r && argv[9] == n);
            assert(argv[6] == "-r"@ && argv[8] == "-c"@);
            if p.device is Some {
                assert(argv[10] == "-D"@ && argv[11] == p.device->0@);
            }
        } else if k == 1 {
            assert(argv[9] == n && argv[11] == r);
            assert(argv[8] == "-ac"@ && argv[10] == "-ar"@);
            if p.device is Some {
                assert(argv[6] == "-i"@ && argv[7] == p.device->0@);
            }
        } else {
            assert(argv[9] == r && argv[11] == n);
            assert(argv[8] == "-r"@ && argv[10] == "-c"@);
            assert(argv[0] == "rec"@);
        },
        Os::MacOs => if k == 0 {
            let d: int = if p.device is Some {
                5
            } else {
                3
            };
            assert(argv[d + 7] == r && argv[d + 9] == n);
            assert(argv[d + 6] == "-r"@ && argv[d + 8] == "-c"@);
            if p.device is Some {
                assert(argv[3] == "coreaudio"@ && argv[4] == p.device->0@);
            }
        } else {
            assert(argv[9] == n && argv[11] == r);
            assert(argv[8] == "-ac"@ && argv[10] == "-ar"@);
            if p.device is Some {
                assert(argv[6] == "-i"@ && argv[7] == p.device->0@);
            }
        },
        Os::Other => {},
    }
}

/// Whichever tool is there, the playback command names the file, which is not piped, and names the
/// device where one is configured and the tool takes one.
pub proof fn law_playback_names_its_file(
    os: Os,
    file: Seq<char>,
    p: AudioParams,
    found: Seq<bool>,
    c: PlaybackCommand,
)
    requires
        is_playback_choice(os, file, p, found, Ok(c)),
    ensures
        !c.via_stdin,
        views(c.argv@).contains(file),
        p.device is Some && (views(c.argv@)[0] == "aplay"@ || views(c.argv@)[0] == "sox"@)
            ==> exists|i: int|
            0 < i < views(c.argv@).len() && (views(c.argv@)[i - 1] == "-D"@ || views(c.argv@)[i - 1]
                == "coreaudio"@) && #[trigger] views(c.argv@)[i] == p.device->0@,
{
    law_playback_commands_are_these(p, file);
    lemma_first_true_is_first(found);
    let argv = views(c.argv@);
    let k = first_true(found) as int;
    reveal_strlit("aplay");
    reveal_strlit("sox");
    reveal_strlit("afplay");
    reveal_strlit("ffplay");
    reveal_strlit("play");
    match os {
        Os::Linux => if k == 0 {
            if p.device is Some {
                assert(argv[2] == "-D"@ && argv[3] == p.device->0@ && argv[4] == file);
            } else {
                assert(argv[2] == file);
            }
        } else if k == 1 {
            assert(argv[0] == "ffplay"@ && argv[5] == file);
        } else {
            assert(argv[0] == "play"@ && argv[2] == file);
        },
        Os::MacOs => if k == 0 {
            assert(argv[3] == file);
            if p.device is Some {
                assert(argv[5] == "coreaudio"@ && argv[6] == p.device->0@);
            }
        } else if k == 1 {
            assert(argv[0] == "afplay"@ && argv[1] == file);
        } else {
            assert(argv[0] == "ffplay"@ && argv[5] == file);
        },
        Os::Other => {},
    }
}

/// What the placeholders of a configured command stand for.
pub proof fn law_placeholders_stand_for_their_values(p: AudioParams, file: Seq<char>)
    ensures
        expanded("{rate}"@, p, Some(file)) == seq![decimal(p.rate as nat)],
        expanded("{channels}"@, p, Some(file)) == seq![decimal(p.channels as nat)],
        expanded("{file}"@, p, Some(file)) == seq![file],
        expanded("{file}"@, p, None).len() == 0,
        p.device matches Some(d) ==> {
            &&& expanded("{ca_dev}"@, p, Some(file)) == seq!["-t"@, "coreaudio"@, d@]
            &&& expanded("{device:-D}"@, p, Some(file)) == seq!["-D"@, d@]
        },
        p.device is None ==> {
            &&& expanded("{ca_dev}"@, p, Some(file)) == seq!["-d"@]
            &&& expanded("{device:-D}"@, p, Some(file)).len() == 0
        },
{
    reveal_strlit("{rate}");
    reveal_strlit("{channels}");
    reveal_strlit("{file}");
    reveal_strlit("{ca_dev}");
    reveal_strlit("{device:-D}");
    assert("{file}"@[1] != "{rate}"@[1]);
    assert("{rate}"@.len() == 6 && "{channels}"@.len() == 10 && "{file}"@.len() == 6);
    assert("{ca_dev}"@.len() == 8 && "{device:-D}"@.len() == 11);
}

/// A word `{device|DEFAULT}` of a configured command is the device, or the default where none is
/// set.
pub proof fn law_a_default_device_gives_way(
    default: Seq<char>,
    p: AudioParams,
    file: Option<Seq<char>>,
)
    ensures
        expanded("{device|"@ + default.push('}'), p, file) == seq![
            match p.device {
                Some(d) => d@,
                None => default,
            },
        ],
{
    reveal_strlit("{device|");
    reveal_strlit("{rate}");
    reveal_strlit("{channels}");
    reveal_strlit("{file}");
    reveal_strlit("{ca_dev}");
    reveal_strlit("{device:-D}");
    let tok = "{device|"@ + default.push('}');
    assert(tok.take(8) =~= "{device|"@);
    assert(tok.last() == '}');
    assert(tok[1] == 'd' && tok[7] == '|');
    assert("{rate}"@[1] != 'd' && "{channels}"@[1] != 'd' && "{file}"@[1] != 'd' && "{ca_dev}"@[1]
        != 'd' && "{device:-D}"@[7] != '|');
    assert(tok.subrange(8, tok.len() - 1) =~= default);
}

/// A command is filled word by word, in the order of its words.
pub proof fn law_a_command_is_filled_word_by_word(
    a: Seq<Seq<char>>,
    b: Seq<Seq<char>>,
    p: AudioParams,
    file: Option<Seq<char>>,
)
    ensures
        filled(a + b, p, file) == filled(a, p, file) + filled(b, p, file),
        forall|w: Seq<char>| #[trigger] filled(seq![w], p, file) == expanded(w, p, file),
    decreases a.len(),
{
    assert forall|w: Seq<char>| #[trigger] filled(seq![w], p, file) == expanded(w, p, file) by {
        lemma_filled_first(w, Seq::empty(), p, file);
        assert(seq![w] + Seq::<Seq<char>>::empty() =~= seq![w]);
        assert(expanded(w, p, file) + filled(Seq::empty(), p, file) =~= expanded(w, p, file));
    }
    if a.len() == 0 {
        assert(a + b =~= b);
        assert(filled(a, p, file) + filled(b, p, file) =~= filled(b, p, file));
    } else {
        let rest = a.skip(1);
        law_a_command_is_filled_word_by_word(rest, b, p, file);
        lemma_filled_first(a[0], rest, p, file);
        lemma_filled_first(a[0], rest + b, p, file);
        assert(seq![a[0]] + rest =~= a);
        assert(seq![a[0]] + (rest + b) =~= a + b);
        assert(filled(a + b, p, file) =~= filled(a, p, file) + filled(b, p, file));
    }
}

/// Where no tool is there, what is said names those that were looked for, each in quotation marks,
/// and the setting that helps.
pub proof fn law_missing_tools_are_named(os: Os)
    ensures
        no_capture_tool(os) == "no capture tool found (looked for "@ + ("["@ + joined(
            capture_tools(os).map_values(|c: CandidateModel| "\""@ + c.bin + "\""@),
            ", "@,
        ) + "]"@) + "); set audio.capture_cmd in config"@,
        no_playback_tool(os) == "no playback tool found (looked for "@ + ("["@ + joined(
            playback_tools(os).map_values(|c: CandidateModel| "\""@ + c.bin + "\""@),
            ", "@,
        ) + "]"@) + "); set audio.playback_cmd in config"@,
{
}

/// A configured command is piped its samples exactly where none of its words names the file.
pub proof fn law_a_command_that_names_no_file_is_piped(template: Seq<Seq<char>>, i: int)
    ensures
        0 <= i < template.len() && contains_text(template[i], "{file}"@) ==> !is_piped(template),
        (forall|k: int|
            0 <= k < template.len() ==> !contains_text(#[trigger] template[k], "{file}"@)) ==> is_piped(
            template,
        ),
{
}

} // verus!
