//! What a run of `nvidia-smi` says about the GPU.

use vstd::prelude::*;
use vstd::string::StringExecFns;

use crate::outside::{decode_lossy, read_text};
use crate::text::{
    is_space, joined, law_first_line, law_join_is_made_of_its_parts, law_join_then_split,
    law_last_line, law_trim_takes_the_ends, law_white_space, line_seq, lines, split, split_text,
    trim, trimmed, views,
};

verus! {

/// How a run of a command ended.
pub enum CommandOutcome {
    /// The command could not be started, for the reason given.
    NotStarted(String),
    /// The command ran to its end and left these bytes.
    Finished { success: bool, stdout: Vec<u8>, stderr: Vec<u8> },
}

/// The readings of one GPU, each as the decimal text that `nvidia-smi` printed.
pub struct GpuReadings {
    pub util: String,
    pub vram_used_mb: String,
    pub vram_total_mb: String,
    pub temp_c: String,
    pub power_w: String,
}

impl View for GpuReadings {
    type V = Seq<Seq<char>>;

    open spec fn view(&self) -> Seq<Seq<char>> {
        seq![self.util@, self.vram_used_mb@, self.vram_total_mb@, self.temp_c@, self.power_w@]
    }
}

/// What a command has to say: its output where it succeeded, else why it did not.
pub open spec fn command_text(outcome: CommandOutcome) -> Result<Seq<char>, Seq<char>> {
    match outcome {
        CommandOutcome::NotStarted(reason) => Err("nvidia-smi failed: "@ + reason@),
        CommandOutcome::Finished { success, stdout, stderr } => if success {
            Ok(read_text(stdout@))
        } else {
            Err(trimmed(read_text(stderr@)))
        },
    }
}

/// The comma-separated fields of a line, each without the white space around it.
pub open spec fn fields(line: Seq<char>) -> Seq<Seq<char>> {
    split(line, ',').map_values(|field: Seq<char>| trimmed(field))
}

/// The five readings on the first line of a report, or what is wrong with it.
pub open spec fn gpu_report(report: Seq<char>) -> Result<Seq<Seq<char>>, Seq<char>> {
    let all = line_seq(report);
    if all.len() == 0 {
        Err("no GPU data"@)
    } else if fields(all[0]).len() < 5 {
        Err("unexpected nvidia-smi output: "@ + all[0])
    } else {
        Ok(fields(all[0]).take(5))
    }
}

/// The texts behind a result.
pub open spec fn text_result(r: Result<String, String>) -> Result<Seq<char>, Seq<char>> {
    match r {
        Ok(t) => Ok(t@),
        Err(e) => Err(e@),
    }
}

/// The readings behind a result.
pub open spec fn readings_result(r: Result<GpuReadings, String>) -> Result<
    Seq<Seq<char>>,
    Seq<char>,
> {
    match r {
        Ok(g) => Ok(g@),
        Err(e) => Err(e@),
    }
}

/// What a command has to say: its output where it succeeded, else why it did not.
pub fn output_text(outcome: &CommandOutcome) -> (r: Result<String, String>)
    ensures
        text_result(r) == command_text(*outcome),
        match *outcome {
            CommandOutcome::NotStarted(reason) => r matches Err(e) && e@ == "nvidia-smi failed: "@
                + reason@,
            CommandOutcome::Finished { success: true, stdout, .. } => r matches Ok(t) && t@
                == read_text(stdout@),
            CommandOutcome::Finished { success: false, stderr, .. } => r matches Err(e) && e@
                == trimmed(read_text(stderr@)),
        },
{
    match outcome {
        CommandOutcome::NotStarted(reason) => {
            let mut message = "nvidia-smi failed: ".to_owned();
            message.append(reason.as_str());
            Err(message)
        },
        CommandOutcome::Finished { success, stdout, stderr } => {
            if *success {
                Ok(decode_lossy(stdout.as_slice()))
            } else {
                Err(trim(decode_lossy(stderr.as_slice()).as_str()))
            }
        },
    }
}

/// The comma-separated fields of a line, each without the white space around it.
pub fn fields_of(line: &str) -> (r: Vec<String>)
    ensures
        views(r@) == fields(line@),
{
    let raw = split_text(line, ',');
    let mut r: Vec<String> = Vec::new();
    let mut i: usize = 0;
    let ghost pieces = split(line@, ',');
    while i < raw.len()
        invariant
            views(raw@) == pieces,
            pieces == split(line@, ','),
            i <= raw.len(),
            views(r@) == fields(line@).take(i as int),
        decreases raw.len() - i,
    {
        let ghost before = views(r@);
        assert(pieces[i as int] == raw[i as int]@);
        r.push(trim(raw[i].as_str()));
        assert(views(r@) == before.push(trimmed(pieces[i as int])));
        i = i + 1;
    }
    assert(fields(line@).take(raw.len() as int) == fields(line@));
    r
}

/// The five readings on the first line of a report, or what is wrong with it.
pub fn parse_gpu_report(report: &str) -> (r: Result<GpuReadings, String>)
    ensures
        readings_result(r) == gpu_report(report@),
        match r {
            Ok(g) => gpu_report(report@) == Ok::<Seq<Seq<char>>, Seq<char>>(
                seq![g.util@, g.vram_used_mb@, g.vram_total_mb@, g.temp_c@, g.power_w@],
            ),
            Err(e) => gpu_report(report@) == Err::<Seq<Seq<char>>, Seq<char>>(e@),
        },
{
    let all = lines(report);
    let ghost seen = line_seq(report@);
    assert(views(all@) == seen);
    if all.len() == 0 {
        return Err("no GPU data".to_owned());
    }
    assert(seen[0] == all[0]@);
    let mut parts = fields_of(all[0].as_str());
    let ghost cells = fields(all[0]@);
    assert(views(parts@) == cells);
    if parts.len() < 5 {
        let mut message = "unexpected nvidia-smi output: ".to_owned();
        message.append(all[0].as_str());
        return Err(message);
    }
    assert(forall|i: int| 0 <= i < 5 ==> cells[i] == #[trigger] parts[i]@);
    let readings = GpuReadings {
        util: parts[0].clone(),
        vram_used_mb: parts[1].clone(),
        vram_total_mb: parts[2].clone(),
        temp_c: parts[3].clone(),
        power_w: parts[4].clone(),
    };
    assert(readings@ == cells.take(5));
    Ok(readings)
}

/// The readings that a run of `nvidia-smi` reports, or why there are none.
pub fn query_nvidia_smi(outcome: &CommandOutcome) -> (r: Result<GpuReadings, String>)
    ensures
        readings_result(r) == match command_text(*outcome) {
            Ok(report) => gpu_report(report),
            Err(reason) => Err(reason),
        },
        match *outcome {
            CommandOutcome::NotStarted(reason) => r matches Err(e) && e@ == "nvidia-smi failed: "@
                + reason@,
            CommandOutcome::Finished { success: true, stdout, .. } => match r {
                Ok(g) => gpu_report(read_text(stdout@)) == Ok::<Seq<Seq<char>>, Seq<char>>(
                    seq![g.util@, g.vram_used_mb@, g.vram_total_mb@, g.temp_c@, g.power_w@],
                ),
                Err(e) => gpu_report(read_text(stdout@)) == Err::<Seq<Seq<char>>, Seq<char>>(e@),
            },
            CommandOutcome::Finished { success: false, stderr, .. } => r matches Err(e) && e@
                == trimmed(read_text(stderr@)),
        },
{
    match output_text(outcome) {
        Ok(report) => parse_gpu_report(report.as_str()),
        Err(reason) => Err(reason),
    }
}

/// A text that a field of a line can hold: no comma, and no white space at its ends.
pub open spec fn is_field(text: Seq<char>) -> bool {
    &&& !text.contains(',')
    &&& text.len() > 0 ==> !is_space(text[0]) && !is_space(text.last())
}

/// Nothing but white space.
pub open spec fn is_room(gap: Seq<char>) -> bool {
    forall|i: int| 0 <= i < gap.len() ==> is_space(#[trigger] gap[i])
}

/// A text with some room before and behind it.
pub open spec fn spaced(cell: (Seq<char>, Seq<char>, Seq<char>)) -> Seq<char> {
    cell.0 + cell.1 + cell.2
}

/// A line that holds some texts, each with room before and behind it and a comma between each
/// two of them.
pub open spec fn line_of(cells: Seq<(Seq<char>, Seq<char>, Seq<char>)>) -> Seq<char> {
    joined(cells.map_values(|cell: (Seq<char>, Seq<char>, Seq<char>)| spaced(cell)), seq![','])
}

/// Texts that are written into a line, with commas between and any white space round them, are
/// read back from it, in order and all of them.
pub proof fn law_fields_are_read_back(cells: Seq<(Seq<char>, Seq<char>, Seq<char>)>)
    requires
        cells.len() > 0,
        forall|i: int|
            0 <= i < cells.len() ==> is_room((#[trigger] cells[i]).0) && is_field(cells[i].1)
                && is_room(cells[i].2),
    ensures
        fields(line_of(cells)) == cells.map_values(
            |cell: (Seq<char>, Seq<char>, Seq<char>)| cell.1,
        ),
{
    let pieces = cells.map_values(|cell: (Seq<char>, Seq<char>, Seq<char>)| spaced(cell));
    let texts = cells.map_values(|cell: (Seq<char>, Seq<char>, Seq<char>)| cell.1);
    assert forall|i: int| 0 <= i < pieces.len() implies !(#[trigger] pieces[i]).contains(',') by {
        let cell = cells[i];
        if pieces[i].contains(',') {
            let k = choose|k: int| 0 <= k < pieces[i].len() && pieces[i][k] == ',';
            law_white_space(',');
            if k < cell.0.len() {
                assert(is_space(cell.0[k]));
            } else if k < cell.0.len() + cell.1.len() {
                assert(cell.1[k - cell.0.len()] == ',');
            } else {
                assert(is_space(cell.2[k - cell.0.len() - cell.1.len()]));
            }
        }
    }
    law_join_then_split(pieces, ',');
    assert forall|i: int| 0 <= i < cells.len() implies #[trigger] fields(line_of(cells))[i]
        == texts[i] by {
        let cell = cells[i];
        law_trim_takes_the_ends(cell.0, cell.1, cell.2);
        assert(pieces[i] == cell.0 + cell.1 + cell.2);
    }
    assert(fields(line_of(cells)) =~= texts);
}

/// The first line of a report decides, whichever line end it has and whatever lines follow, and
/// so does a line without an end.
proof fn lemma_first_line_decides(line: Seq<char>, rest: Seq<char>)
    requires
        !line.contains('\n'),
    ensures
        line_seq(line + seq!['\r', '\n'] + rest).len() > 0,
        line_seq(line + seq!['\r', '\n'] + rest)[0] == line,
        line.len() == 0 || line.last() != '\r' ==> line_seq(line + seq!['\n'] + rest).len() > 0
            && line_seq(line + seq!['\n'] + rest)[0] == line,
        line.len() > 0 ==> line_seq(line) == seq![line],
{
    law_first_line(line, rest);
    law_last_line(line);
}

/// The five readings that are written into the first line of a report, with commas between and
/// any white space round them, are read back in their order, whatever further fields the line
/// has and whatever lines follow.
pub proof fn law_readings_are_read_back(
    cells: Seq<(Seq<char>, Seq<char>, Seq<char>)>,
    rest: Seq<char>,
)
    requires
        cells.len() >= 5,
        forall|i: int|
            0 <= i < cells.len() ==> is_room((#[trigger] cells[i]).0) && is_field(cells[i].1)
                && is_room(cells[i].2),
        !line_of(cells).contains('\n'),
    ensures
        ({
            let line = line_of(cells);
            let readings = Ok::<Seq<Seq<char>>, Seq<char>>(
                seq![cells[0].1, cells[1].1, cells[2].1, cells[3].1, cells[4].1],
            );
            &&& gpu_report(line) == readings
            &&& gpu_report(line + seq!['\r', '\n'] + rest) == readings
            &&& line.last() != '\r' ==> gpu_report(line + seq!['\n'] + rest) == readings
        }),
{
    let line = line_of(cells);
    let texts = cells.map_values(|cell: (Seq<char>, Seq<char>, Seq<char>)| cell.1);
    law_fields_are_read_back(cells);
    assert(texts.take(5) =~= seq![
        cells[0].1,
        cells[1].1,
        cells[2].1,
        cells[3].1,
        cells[4].1,
    ]);
    let pieces = cells.map_values(|cell: (Seq<char>, Seq<char>, Seq<char>)| spaced(cell));
    assert(line.len() > 0) by {
        assert(pieces.take(1) + pieces.skip(1) == pieces);
        law_join_is_made_of_its_parts(Seq::empty(), pieces.take(1), pieces.skip(1), seq![',']);
    }
    lemma_first_line_decides(line, rest);
}

/// A report without a line, and one whose first line holds fewer than five fields, give no
/// readings but an error: that there is no data, or what the line is.
pub proof fn law_bad_reports_are_named(cells: Seq<Seq<char>>, rest: Seq<char>)
    requires
        0 < cells.len() < 5,
        forall|i: int| 0 <= i < cells.len() ==> !(#[trigger] cells[i]).contains(','),
        !joined(cells, seq![',']).contains('\n'),
    ensures
        gpu_report(Seq::empty()) == Err::<Seq<Seq<char>>, Seq<char>>("no GPU data"@),
        ({
            let line = joined(cells, seq![',']);
            let error = Err::<Seq<Seq<char>>, Seq<char>>("unexpected nvidia-smi output: "@ + line);
            &&& line.len() > 0 ==> gpu_report(line) == error
            &&& gpu_report(line + seq!['\r', '\n'] + rest) == error
            &&& line.len() == 0 || line.last() != '\r' ==> gpu_report(line + seq!['\n'] + rest)
                == error
        }),
{
    let line = joined(cells, seq![',']);
    law_last_line(Seq::empty());
    law_join_then_split(cells, ',');
    assert(fields(line).len() == cells.len());
    lemma_first_line_decides(line, rest);
}

/// What a run has to say depends on how it ended: a run that succeeded says what it wrote to its
/// output, one that failed what it wrote to its errors without the white space round it, and one
/// that did not start says why.
pub proof fn law_a_run_says_how_it_ended(reason: String, stdout: Vec<u8>, stderr: Vec<u8>)
    ensures
        command_text(CommandOutcome::NotStarted(reason)) == Err::<Seq<char>, Seq<char>>(
            "nvidia-smi failed: "@ + reason@,
        ),
        command_text((CommandOutcome::Finished { success: true, stdout, stderr })) == Ok::<
            Seq<char>,
            Seq<char>,
        >(read_text(stdout@)),
        command_text((CommandOutcome::Finished { success: false, stdout, stderr })) == Err::<
            Seq<char>,
            Seq<char>,
        >(trimmed(read_text(stderr@))),
{
}

/// The texts behind a result are those of the result itself.
pub proof fn law_results_keep_their_texts(text: String, g: GpuReadings)
    ensures
        text_result(Ok(text)) == Ok::<Seq<char>, Seq<char>>(text@),
        text_result(Err(text)) == Err::<Seq<char>, Seq<char>>(text@),
        readings_result(Err(text)) == Err::<Seq<Seq<char>>, Seq<char>>(text@),
        readings_result(Ok(g)) == Ok::<Seq<Seq<char>>, Seq<char>>(
            seq![g.util@, g.vram_used_mb@, g.vram_total_mb@, g.temp_c@, g.power_w@],
        ),
{
}

} // verus!
