//! What a view writes about a stream.

use crate::text::{decimal, decimal_i64, decimal_u64, join2, signed_decimal};
use crate::view::summary::{AudioStreamConfig, AudioStreamSummary};
use vstd::prelude::*;

verus! {

/// How a label is drawn.
#[derive(Debug, Clone, Copy, PartialEq, Eq, Structural)]
pub enum Tone {
    Plain,
    Warning,
    Weak,
}

/// A piece of text on its own.
#[derive(Debug)]
pub struct Label {
    pub tone: Tone,
    pub text: String,
}

/// A label by its text.
pub struct LabelView {
    pub tone: Tone,
    pub text: Seq<char>,
}

impl View for Label {
    type V = LabelView;

    open spec fn view(&self) -> LabelView {
        LabelView { tone: self.tone, text: self.text@ }
    }
}

/// The views of `labels`.
pub open spec fn label_views(labels: Seq<Label>) -> Seq<LabelView> {
    labels.map_values(|l: Label| l@)
}

/// How much of a stream is there.
#[derive(Debug, Clone, Copy, PartialEq, Eq, Structural)]
pub enum DecodedAmount {
    /// So many samples, at so many samples per second.
    Time { samples: u64, sample_rate: u32 },
    /// So many samples, at an unknown rate.
    Samples(u64),
    /// A row has no duration.
    Unknown,
}

/// Tells how much of a stream is there.
pub fn decoded_amount(summary: &AudioStreamSummary) -> (r: DecodedAmount)
    ensures
        r == match (summary.total_samples, summary.config) {
            (Some(samples), Some(config)) => if config.sample_rate > 0 {
                DecodedAmount::Time { samples, sample_rate: config.sample_rate }
            } else {
                DecodedAmount::Samples(samples)
            },
            (Some(samples), None) => DecodedAmount::Samples(samples),
            (None, _) => DecodedAmount::Unknown,
        },
{
    match (summary.total_samples, summary.config) {
        (Some(samples), Some(config)) => if config.sample_rate > 0 {
            DecodedAmount::Time { samples, sample_rate: config.sample_rate }
        } else {
            DecodedAmount::Samples(samples)
        },
        (Some(samples), None) => DecodedAmount::Samples(samples),
        (None, _) => DecodedAmount::Unknown,
    }
}

/// The label for a configuration.
pub open spec fn config_text(config: Option<AudioStreamConfig>) -> LabelView {
    match config {
        Some(config) => LabelView {
            tone: Tone::Plain,
            text: config.codec.name() + " · "@ + decimal(config.sample_rate as nat) + " Hz · "@
                + decimal(config.channel_count as nat) + " ch"@,
        },
        None => LabelView {
            tone: Tone::Warning,
            text: "Missing required config (codec / sample_rate / channel_count)."@,
        },
    }
}

/// Names the codec, the rate and the channels of a stream, or warns that they are not known.
pub fn config_label(config: Option<AudioStreamConfig>) -> (r: Label)
    ensures
        r@ == config_text(config),
{
    match config {
        Some(config) => {
            let mut text = join2(config.codec.display_name(), " · ");
            text.append(decimal_u64(config.sample_rate as u64).as_str());
            text.append(" Hz · ");
            text.append(decimal_u64(config.channel_count as u64).as_str());
            text.append(" ch");
            Label { tone: Tone::Plain, text }
        },
        None => Label {
            tone: Tone::Warning,
            text: "Missing required config (codec / sample_rate / channel_count).".to_owned(),
        },
    }
}

/// A number and what it counts.
pub fn counted(count: usize, what: &str) -> (r: String)
    ensures
        r@ == decimal(count as nat) + what@,
{
    join2(decimal_u64(count as u64).as_str(), what)
}

/// A warning where `count` is not zero.
pub open spec fn warning_if_any(count: usize, what: Seq<char>) -> Seq<LabelView> {
    if count > 0 {
        seq![LabelView { tone: Tone::Warning, text: decimal(count as nat) + what }]
    } else {
        Seq::empty()
    }
}

/// The labels for the faults of a stream. Sequence numbers that are there are said to be
/// contiguous where they are.
pub open spec fn fault_texts(summary: AudioStreamSummary) -> Seq<LabelView> {
    warning_if_any(summary.discontinuities, " discontinuities"@) + warning_if_any(
        summary.out_of_order,
        " out-of-order"@,
    ) + match summary.sequence_gaps {
        Some(gaps) => if gaps > 0 {
            warning_if_any(gaps, " sequence gaps"@)
        } else {
            seq![LabelView { tone: Tone::Plain, text: "sequence contiguous"@ }]
        },
        None => Seq::empty(),
    }
}

fn warn_if_any(labels: &mut Vec<Label>, count: usize, what: &str)
    ensures
        label_views(final(labels)@) == label_views(old(labels)@) + warning_if_any(count, what@),
{
    let ghost before = labels@;
    if count > 0 {
        labels.push(Label { tone: Tone::Warning, text: counted(count, what) });
    }
    assert(label_views(labels@) =~= label_views(before) + warning_if_any(count, what@));
}

/// Lists the faults of a stream, in a fixed order.
pub fn fault_labels(summary: &AudioStreamSummary) -> (r: Vec<Label>)
    ensures
        label_views(r@) == fault_texts(*summary),
{
    let mut labels: Vec<Label> = Vec::new();
    warn_if_any(&mut labels, summary.discontinuities, " discontinuities");
    warn_if_any(&mut labels, summary.out_of_order, " out-of-order");
    if let Some(gaps) = summary.sequence_gaps {
        if gaps > 0 {
            warn_if_any(&mut labels, gaps, " sequence gaps");
        } else {
            labels.push(Label { tone: Tone::Plain, text: "sequence contiguous".to_owned() });
        }
    }
    assert(label_views(labels@) =~= fault_texts(*summary));
    labels
}

/// The label for the time that a stream spans.
pub open spec fn span_text(summary: AudioStreamSummary) -> Option<LabelView> {
    if summary.segment_count == 0 {
        Some(
            LabelView { tone: Tone::Weak, text: "No chunks logged on the current timeline."@ },
        )
    } else {
        match summary.pts_range {
            Some((first, last)) => Some(
                LabelView {
                    tone: Tone::Weak,
                    text: "pts range: "@ + signed_decimal(first as int) + " .. "@ + signed_decimal(
                        last as int,
                    ),
                },
            ),
            None => None,
        }
    }
}

/// Names the times of the first and the last row, or says that there are no rows.
pub fn span_label(summary: &AudioStreamSummary) -> (r: Option<Label>)
    ensures
        match r {
            Some(label) => span_text(*summary) == Some(label@),
            None => span_text(*summary) is None,
        },
{
    if summary.segment_count == 0 {
        let text = "No chunks logged on the current timeline.".to_owned();
        return Some(Label { tone: Tone::Weak, text });
    }
    match summary.pts_range {
        Some((first, last)) => {
            let mut text = join2("pts range: ", decimal_i64(first).as_str());
            text.append(" .. ");
            text.append(decimal_i64(last).as_str());
            Some(Label { tone: Tone::Weak, text })
        },
        None => None,
    }
}

/// A stream without faults has no warning, and each kind of fault that there is has one warning,
/// which begins with its count; gaps are spoken of only where there are sequence numbers.
pub proof fn every_fault_has_one_warning(summary: &AudioStreamSummary, labels: Vec<Label>)
    requires
        call_ensures(fault_labels, (summary,), labels),
    ensures
        ({
            let warnings = (if summary.discontinuities > 0 {
                1int
            } else {
                0
            }) + (if summary.out_of_order > 0 {
                1int
            } else {
                0
            }) + (if summary.sequence_gaps is Some && summary.sequence_gaps->0 > 0 {
                1int
            } else {
                0
            });
            let contiguous = summary.sequence_gaps == Some(0usize);
            &&& labels@.len() == warnings + (if contiguous {
                1int
            } else {
                0
            })
            &&& forall|i: int|
                0 <= i < warnings ==> (#[trigger] label_views(labels@)[i]).tone == Tone::Warning
            &&& contiguous ==> label_views(labels@)[warnings].tone == Tone::Plain
            &&& summary.discontinuities > 0 ==> label_views(labels@)[0].text == decimal(
                summary.discontinuities as nat,
            ) + " discontinuities"@
        }),
{
    assert(label_views(labels@).len() == labels@.len());
}

/// The amount of a stream is told in time where its rate is known, and otherwise in samples, and
/// is unknown where a row has no duration.
pub proof fn amounts_are_told_by_what_is_known(summary: &AudioStreamSummary, r: DecodedAmount)
    requires
        call_ensures(decoded_amount, (summary,), r),
    ensures
        r is Unknown <==> summary.total_samples is None,
        r matches DecodedAmount::Samples(n) ==> summary.total_samples == Some(n) && (
        summary.config matches Some(config) ==> config.sample_rate == 0),
        r matches DecodedAmount::Time { samples, sample_rate } ==> summary.total_samples == Some(
            samples,
        ) && summary.config is Some && summary.config->0.sample_rate == sample_rate && sample_rate
            > 0,
{
}

} // verus!
