//! The bundle use case: choosing, per package and per license, the best
//! candidate text among those discovery found, and accumulating the
//! run-level diagnostics.

use vstd::prelude::*;
use vstd::string::StringExecFns;

use crate::discovery::Confidence;
use crate::discovery::FileEntry;
use crate::discovery::FileEntryView;
use crate::discovery::LicenseText;
use crate::discovery::LicenseTextView;
use crate::discovery::better_find;
use crate::discovery::better_find_spec;
use crate::discovery::entry_views;
use crate::discovery::texts_view;
use crate::license::License;
use crate::license::LicenseView;
use crate::license::lemma_member_views;
use crate::license::member_views;
use crate::load::Package;
use crate::load::declared_license_spec;
use crate::textops::chars_cmp;

verus! {

/// What the chosen candidate of one license tells the run.
#[derive(Debug, Clone, Copy, PartialEq, Eq, Structural)]
pub enum LicenseInfo {
    /// More than one candidate stood in the winning tier.
    MultiplePossibleLicenseFiles,
    /// No candidate text was found for the license.
    MissingLicenseFile,
    Confident,
    SemiConfident,
    Unsure,
    /// There was nothing to compare the candidate's content to.
    NoTemplate,
    /// The package does not declare a license at all.
    UnspecifiedLicenseInPackage,
}

/// The chosen candidate text of one license: a single winner, every
/// candidate of an ambiguous winning tier (the first is the
/// representative), or nothing.
#[derive(Debug)]
pub enum BestChoice {
    Single(LicenseText),
    Multiple(Vec<LicenseText>),
    Absent,
}

/// The model of a chosen candidate.
pub enum BestChoiceView {
    Single(LicenseTextView),
    Multiple(Seq<LicenseTextView>),
    Absent,
}

impl View for BestChoice {
    type V = BestChoiceView;

    open spec fn view(&self) -> BestChoiceView {
        match self {
            BestChoice::Single(t) => BestChoiceView::Single(t@),
            BestChoice::Multiple(v) => BestChoiceView::Multiple(texts_view(v@)),
            BestChoice::Absent => BestChoiceView::Absent,
        }
    }
}

/// The candidates of one tier, in discovery order.
pub open spec fn tier_of(ts: Seq<LicenseTextView>, c: Confidence) -> Seq<LicenseTextView> {
    ts.filter(|t: LicenseTextView| t.confidence == c)
}

/// What choosing among candidates yields: the highest-priority non-empty
/// confidence tier wins; a lone candidate in it is the choice, several
/// are kept together (the first is the representative), and no candidates
/// at all mean a missing license text.
pub open spec fn choose_spec(ts: Seq<LicenseTextView>) -> (BestChoiceView, LicenseInfo) {
    let conf = tier_of(ts, Confidence::Confident);
    let semi = tier_of(ts, Confidence::SemiConfident);
    let unsure = tier_of(ts, Confidence::Unsure);
    let notmpl = tier_of(ts, Confidence::NoTemplate);
    if conf.len() == 1 {
        (BestChoiceView::Single(conf[0]), LicenseInfo::Confident)
    } else if conf.len() > 1 {
        (BestChoiceView::Multiple(conf), LicenseInfo::Confident)
    } else if semi.len() == 1 {
        (BestChoiceView::Single(semi[0]), LicenseInfo::SemiConfident)
    } else if semi.len() > 1 {
        (BestChoiceView::Multiple(semi), LicenseInfo::SemiConfident)
    } else if unsure.len() == 1 {
        (BestChoiceView::Single(unsure[0]), LicenseInfo::Unsure)
    } else if unsure.len() > 1 {
        (BestChoiceView::Multiple(unsure), LicenseInfo::Unsure)
    } else if notmpl.len() == 1 {
        (BestChoiceView::Single(notmpl[0]), LicenseInfo::NoTemplate)
    } else if notmpl.len() > 1 {
        (BestChoiceView::Multiple(notmpl), LicenseInfo::NoTemplate)
    } else {
        (BestChoiceView::Absent, LicenseInfo::MissingLicenseFile)
    }
}

/// Chooses the best candidate text: candidates are partitioned into the
/// four confidence tiers, discovery order kept, and the highest-priority
/// non-empty tier decides.
pub fn choose_text(texts: Vec<LicenseText>) -> (r: (BestChoice, LicenseInfo))
    ensures
        (r.0@, r.1) == choose_spec(texts_view(texts@)),
{
    let ghost all = texts_view(texts@);
    let mut texts = texts;
    let mut conf: Vec<LicenseText> = Vec::new();
    let mut semi: Vec<LicenseText> = Vec::new();
    let mut unsure: Vec<LicenseText> = Vec::new();
    let mut notmpl: Vec<LicenseText> = Vec::new();
    let ghost k: int = 0;
    proof {
        reveal(Seq::filter);
        assert(all.take(0) =~= Seq::<LicenseTextView>::empty());
        assert(texts_view(texts@) =~= all.skip(0));
        assert(texts_view(conf@) =~= tier_of(all.take(0), Confidence::Confident));
        assert(texts_view(semi@) =~= tier_of(all.take(0), Confidence::SemiConfident));
        assert(texts_view(unsure@) =~= tier_of(all.take(0), Confidence::Unsure));
        assert(texts_view(notmpl@) =~= tier_of(all.take(0), Confidence::NoTemplate));
    }
    while texts.len() > 0
        invariant
            0 <= k <= all.len(),
            texts@.len() == all.len() - k,
            texts_view(texts@) =~= all.skip(k),
            texts_view(conf@) == tier_of(all.take(k), Confidence::Confident),
            texts_view(semi@) == tier_of(all.take(k), Confidence::SemiConfident),
            texts_view(unsure@) == tier_of(all.take(k), Confidence::Unsure),
            texts_view(notmpl@) == tier_of(all.take(k), Confidence::NoTemplate),
        decreases texts@.len(),
    {
        let ghost prev = texts@;
        let t = texts.remove(0);
        proof {
            reveal(Seq::filter);
            assert(texts_view(prev)[0] == t@);
            assert(t@ == all[k]);
            assert(texts_view(texts@) =~= texts_view(prev).drop_first());
            assert(texts_view(texts@) =~= all.skip(k + 1));
            assert(all.take(k + 1).drop_last() =~= all.take(k));
            assert(all.take(k + 1).last() == all[k]);
        }
        let ghost cv = conf@;
        let ghost sv = semi@;
        let ghost uv = unsure@;
        let ghost nv = notmpl@;
        match t.confidence {
            Confidence::Confident => {
                conf.push(t);
                proof {
                    assert(texts_view(conf@) =~= texts_view(cv).push(all[k]));
                }
            },
            Confidence::SemiConfident => {
                semi.push(t);
                proof {
                    assert(texts_view(semi@) =~= texts_view(sv).push(all[k]));
                }
            },
            Confidence::Unsure => {
                unsure.push(t);
                proof {
                    assert(texts_view(unsure@) =~= texts_view(uv).push(all[k]));
                }
            },
            Confidence::NoTemplate => {
                notmpl.push(t);
                proof {
                    assert(texts_view(notmpl@) =~= texts_view(nv).push(all[k]));
                }
            },
        }
        proof {
            reveal(Seq::filter);
            assert(texts_view(conf@) == tier_of(all.take(k + 1), Confidence::Confident));
            assert(texts_view(semi@) == tier_of(all.take(k + 1), Confidence::SemiConfident));
            assert(texts_view(unsure@) == tier_of(all.take(k + 1), Confidence::Unsure));
            assert(texts_view(notmpl@) == tier_of(all.take(k + 1), Confidence::NoTemplate));
            k = k + 1;
        }
    }
    proof {
        assert(all.take(all.len() as int) =~= all);
    }
    if conf.len() == 1 {
        let t = conf.remove(0);
        (BestChoice::Single(t), LicenseInfo::Confident)
    } else if conf.len() > 1 {
        (BestChoice::Multiple(conf), LicenseInfo::Confident)
    } else if semi.len() == 1 {
        let t = semi.remove(0);
        (BestChoice::Single(t), LicenseInfo::SemiConfident)
    } else if semi.len() > 1 {
        (BestChoice::Multiple(semi), LicenseInfo::SemiConfident)
    } else if unsure.len() == 1 {
        let t = unsure.remove(0);
        (BestChoice::Single(t), LicenseInfo::Unsure)
    } else if unsure.len() > 1 {
        (BestChoice::Multiple(unsure), LicenseInfo::Unsure)
    } else if notmpl.len() == 1 {
        let t = notmpl.remove(0);
        (BestChoice::Single(t), LicenseInfo::NoTemplate)
    } else if notmpl.len() > 1 {
        (BestChoice::Multiple(notmpl), LicenseInfo::NoTemplate)
    } else {
        (BestChoice::Absent, LicenseInfo::MissingLicenseFile)
    }
}

/// The diagnostic records one choice appends to the run: an ambiguity
/// record where several candidates shared the winning tier, a missing
/// record where no text was found, and a record of an undeclared license.
pub open spec fn recorded_issues(b: BestChoiceView, info: LicenseInfo) -> Seq<LicenseInfo> {
    (if b is Multiple {
        seq![LicenseInfo::MultiplePossibleLicenseFiles]
    } else {
        Seq::empty()
    }) + (if info == LicenseInfo::MissingLicenseFile {
        seq![LicenseInfo::MissingLicenseFile]
    } else if info == LicenseInfo::UnspecifiedLicenseInPackage {
        seq![LicenseInfo::UnspecifiedLicenseInPackage]
    } else {
        Seq::empty()
    })
}

/// Whether one choice marks the run's license evidence as low quality:
/// an ambiguous winning tier below `Confident`.
pub open spec fn choice_low_quality(b: BestChoiceView, info: LicenseInfo) -> bool {
    b is Multiple && (info == LicenseInfo::SemiConfident || info == LicenseInfo::Unsure || info
        == LicenseInfo::NoTemplate)
}

/// Whether one choice marks the run as missing a license text.
pub open spec fn choice_missing(b: BestChoiceView, info: LicenseInfo) -> bool {
    info == LicenseInfo::MissingLicenseFile
}

/// The run-level diagnostics: two monotonic flags that can only be set,
/// never reset, and the ordered list of diagnostic records.
#[derive(Debug)]
pub struct RunDiagnostics {
    pub missing_license: bool,
    pub low_quality_license: bool,
    pub issues: Vec<LicenseInfo>,
}

impl RunDiagnostics {
    /// Fresh diagnostics: nothing missing, nothing low quality, no
    /// records.
    pub fn new() -> (r: RunDiagnostics)
        ensures
            !r.missing_license,
            !r.low_quality_license,
            r.issues@ =~= Seq::<LicenseInfo>::empty(),
    {
        RunDiagnostics { missing_license: false, low_quality_license: false, issues: Vec::new() }
    }

    /// Absorbs one choice: ORs the two flags with what the choice says
    /// and appends its diagnostic records.
    pub fn record_choice(&mut self, best: &BestChoice, info: LicenseInfo)
        ensures
            final(self).missing_license == (old(self).missing_license || choice_missing(
                best@,
                info,
            )),
            final(self).low_quality_license == (old(self).low_quality_license
                || choice_low_quality(best@, info)),
            final(self).issues@ == old(self).issues@ + recorded_issues(best@, info),
    {
        let ghost before = self.issues@;
        let ambiguous = matches!(best, BestChoice::Multiple(_));
        if ambiguous {
            self.issues.push(LicenseInfo::MultiplePossibleLicenseFiles);
        }
        if info == LicenseInfo::MissingLicenseFile {
            self.missing_license = true;
            self.issues.push(LicenseInfo::MissingLicenseFile);
        }
        if info == LicenseInfo::UnspecifiedLicenseInPackage {
            self.issues.push(LicenseInfo::UnspecifiedLicenseInPackage);
        }
        if ambiguous && (info == LicenseInfo::SemiConfident || info == LicenseInfo::Unsure || info
            == LicenseInfo::NoTemplate) {
            self.low_quality_license = true;
        }
        proof {
            assert(self.issues@ =~= before + recorded_issues(best@, info));
        }
    }
}

/// Two or more `Confident` candidates: the choice keeps them all with the
/// first by discovery order as the representative, an ambiguity record is
/// appended — and, the tier being `Confident`, the choice neither sets
/// the low-quality flag nor the missing flag.
pub proof fn lemma_ambiguous_confident(ts: Seq<LicenseTextView>)
    requires
        tier_of(ts, Confidence::Confident).len() >= 2,
    ensures
        choose_spec(ts) == (
            BestChoiceView::Multiple(tier_of(ts, Confidence::Confident)),
            LicenseInfo::Confident,
        ),
        exists|i: int|
            0 <= i < ts.len() && #[trigger] ts[i] == tier_of(ts, Confidence::Confident)[0] && (
            forall|q: int| 0 <= q < i ==> (#[trigger] ts[q]).confidence != Confidence::Confident),
        recorded_issues(choose_spec(ts).0, choose_spec(ts).1) == seq![
            LicenseInfo::MultiplePossibleLicenseFiles,
        ],
        !choice_low_quality(choose_spec(ts).0, choose_spec(ts).1),
        !choice_missing(choose_spec(ts).0, choose_spec(ts).1),
{
    lemma_filter_first(ts, |t: LicenseTextView| t.confidence == Confidence::Confident);
    assert(recorded_issues(choose_spec(ts).0, choose_spec(ts).1) =~= seq![
        LicenseInfo::MultiplePossibleLicenseFiles,
    ]);
}

/// The first element a filter keeps is the first element satisfying the
/// predicate.
proof fn lemma_filter_first<A>(s: Seq<A>, pred: spec_fn(A) -> bool)
    requires
        s.filter(pred).len() > 0,
    ensures
        exists|i: int|
            0 <= i < s.len() && pred(#[trigger] s[i]) && s[i] == s.filter(pred)[0] && (forall|q: int|
                0 <= q < i ==> !pred(s[q])),
    decreases s.len(),
{
    reveal(Seq::filter);
    if s.len() > 0 {
        if s.drop_last().filter(pred).len() > 0 {
            lemma_filter_first(s.drop_last(), pred);
            let i = choose|i: int|
                0 <= i < s.drop_last().len() && pred(#[trigger] s.drop_last()[i]) && s.drop_last()[i]
                    == s.drop_last().filter(pred)[0] && (forall|q: int|
                    0 <= q < i ==> !pred(s.drop_last()[q]));
            assert(s[i] == s.drop_last()[i]);
            assert(s.filter(pred)[0] == s.drop_last().filter(pred)[0]);
            assert forall|q: int| 0 <= q < i implies !pred(s[q]) by {
                assert(s[q] == s.drop_last()[q]);
            }
        } else {
            assert(pred(s.last()));
            let i = s.len() - 1;
            assert(s[i] == s.filter(pred)[0]);
            assert forall|q: int| 0 <= q < i implies !pred(s[q]) by {
                assert(s[q] == s.drop_last()[q]);
                if pred(s[q]) {
                    s.drop_last().lemma_filter_contains(pred, q);
                }
            }
        }
    }
}

/// The chosen texts of one package: one choice for a single license, or
/// one choice per member of a `Multiple`, aligned with the member list.
#[derive(Debug)]
pub enum FoundTexts {
    Single(BestChoice, LicenseInfo),
    Multiple(Vec<(BestChoice, LicenseInfo)>),
}

/// The model of the chosen texts of one package.
pub enum FoundTextsView {
    Single(BestChoiceView, LicenseInfo),
    Multiple(Seq<(BestChoiceView, LicenseInfo)>),
}

impl View for FoundTexts {
    type V = FoundTextsView;

    open spec fn view(&self) -> FoundTextsView {
        match self {
            FoundTexts::Single(b, i) => FoundTextsView::Single(b@, *i),
            FoundTexts::Multiple(v) => FoundTextsView::Multiple(
                v@.map_values(|c: (BestChoice, LicenseInfo)| (c.0@, c.1)),
            ),
        }
    }
}

/// The choice made for each member of an expression, in member order.
pub open spec fn member_choices(evs: Seq<FileEntryView>, ls: Seq<LicenseView>) -> Seq<
    (BestChoiceView, LicenseInfo),
> {
    ls.map_values(|m: LicenseView| choose_spec(better_find_spec(evs, m)))
}

/// What discovering and choosing yields for one package: nothing to look
/// for where no license is declared; one choice per member of a
/// `Multiple`; else the one choice for the declared license.
pub open spec fn get_lich_texts_spec(p: Package, evs: Seq<FileEntryView>) -> FoundTextsView {
    match declared_license_spec(p) {
        LicenseView::Unspecified => FoundTextsView::Single(
            BestChoiceView::Absent,
            LicenseInfo::UnspecifiedLicenseInPackage,
        ),
        LicenseView::Multiple(ls) => FoundTextsView::Multiple(member_choices(evs, ls)),
        l => FoundTextsView::Single(
            choose_spec(better_find_spec(evs, l)).0,
            choose_spec(better_find_spec(evs, l)).1,
        ),
    }
}

/// The diagnostic records of a sequence of choices, in order.
pub open spec fn issues_of_choices(cs: Seq<(BestChoiceView, LicenseInfo)>) -> Seq<LicenseInfo>
    decreases cs.len(),
{
    if cs.len() == 0 {
        Seq::empty()
    } else {
        issues_of_choices(cs.drop_last()) + recorded_issues(cs.last().0, cs.last().1)
    }
}

/// The diagnostic records of one package's choices.
pub open spec fn lich_issues(ft: FoundTextsView) -> Seq<LicenseInfo> {
    match ft {
        FoundTextsView::Single(b, i) => recorded_issues(b, i),
        FoundTextsView::Multiple(cs) => issues_of_choices(cs),
    }
}

/// Whether the choice at position `k` leaves a license text missing.
pub open spec fn choice_missing_at(cs: Seq<(BestChoiceView, LicenseInfo)>, k: int) -> bool {
    choice_missing(cs[k].0, cs[k].1)
}

/// Whether the choice at position `k` marks the evidence as low quality.
pub open spec fn choice_low_at(cs: Seq<(BestChoiceView, LicenseInfo)>, k: int) -> bool {
    choice_low_quality(cs[k].0, cs[k].1)
}

/// Whether some choice of the sequence leaves a license text missing.
pub open spec fn any_choice_missing(cs: Seq<(BestChoiceView, LicenseInfo)>) -> bool {
    exists|k: int| 0 <= k < cs.len() && #[trigger] choice_missing_at(cs, k)
}

/// Whether some choice of the sequence marks the evidence as low quality.
pub open spec fn any_choice_low(cs: Seq<(BestChoiceView, LicenseInfo)>) -> bool {
    exists|k: int| 0 <= k < cs.len() && #[trigger] choice_low_at(cs, k)
}

/// Whether one package's choices leave a license text missing.
pub open spec fn lich_missing(ft: FoundTextsView) -> bool {
    match ft {
        FoundTextsView::Single(b, i) => choice_missing(b, i),
        FoundTextsView::Multiple(cs) => any_choice_missing(cs),
    }
}

/// Whether one package's choices mark the evidence as low quality.
pub open spec fn lich_low_quality(ft: FoundTextsView) -> bool {
    match ft {
        FoundTextsView::Single(b, i) => choice_low_quality(b, i),
        FoundTextsView::Multiple(cs) => any_choice_low(cs),
    }
}

/// The found license texts of one package: the package, its declared
/// license, and the chosen text of each of its licenses.
#[derive(Debug)]
pub struct Lich {
    pub package: Package,
    pub license: License,
    pub texts: FoundTexts,
}

impl Lich {
    /// Builds the record of one package's found texts.
    pub fn to_lich(package: &Package, license: License, texts: FoundTexts) -> (r: Lich)
        ensures
            r.package == *package,
            r.license == license,
            r.texts == texts,
    {
        Lich { package: package.clone(), license, texts }
    }
}

/// Discovers and chooses the license texts of one package from its
/// directory entries, and absorbs the outcome into the run diagnostics:
/// an undeclared license is recorded as such; the members of a `Multiple`
/// are each discovered and chosen independently, in member order.
#[verifier::rlimit(100)]
pub fn get_lich(package: &Package, entries: &Vec<FileEntry>, diag: &mut RunDiagnostics) -> (r: Lich)
    ensures
        r.package == *package,
        r.license@ == declared_license_spec(*package),
        r.texts@ == get_lich_texts_spec(*package, entry_views(entries@)),
        final(diag).missing_license == (old(diag).missing_license || lich_missing(
            get_lich_texts_spec(*package, entry_views(entries@)),
        )),
        final(diag).low_quality_license == (old(diag).low_quality_license || lich_low_quality(
            get_lich_texts_spec(*package, entry_views(entries@)),
        )),
        final(diag).issues@ == old(diag).issues@ + lich_issues(
            get_lich_texts_spec(*package, entry_views(entries@)),
        ),
{
    broadcast use lemma_member_views;

    let ghost evs = entry_views(entries@);
    let license = package.license();
    match &license {
        License::Unspecified => {
            let bc = BestChoice::Absent;
            proof {
                assert(get_lich_texts_spec(*package, evs) == FoundTextsView::Single(
                    BestChoiceView::Absent,
                    LicenseInfo::UnspecifiedLicenseInPackage,
                ));
            }
            diag.record_choice(&bc, LicenseInfo::UnspecifiedLicenseInPackage);
            proof {
                assert(diag.missing_license == (old(diag).missing_license || lich_missing(
                    get_lich_texts_spec(*package, evs),
                )));
            }
            Lich {
                package: package.clone(),
                license,
                texts: FoundTexts::Single(bc, LicenseInfo::UnspecifiedLicenseInPackage),
            }
        },
        License::Multiple(ls) => {
            let ghost vs = member_views(ls@);
            let ghost d0 = *diag;
            let mut choices: Vec<(BestChoice, LicenseInfo)> = Vec::new();
            let mut i: usize = 0;
            proof {
                assert(license@ == LicenseView::Multiple(vs));
                assert(vs.take(0) =~= Seq::<LicenseView>::empty());
                assert(choices@.map_values(|c: (BestChoice, LicenseInfo)| (c.0@, c.1))
                    =~= member_choices(evs, vs.take(0)));
                assert(issues_of_choices(member_choices(evs, vs.take(0))) =~= Seq::<
                    LicenseInfo,
                >::empty());
                assert(diag.issues@ =~= d0.issues@ + issues_of_choices(
                    member_choices(evs, vs.take(0)),
                ));
            }
            #[verifier::loop_isolation(false)]
            while i < ls.len()
                invariant
                    0 <= i <= ls.len(),
                    choices@.map_values(|c: (BestChoice, LicenseInfo)| (c.0@, c.1))
                        == member_choices(evs, vs.take(i as int)),
                    diag.missing_license == (d0.missing_license || exists|k: int|
                        0 <= k < i && #[trigger] choice_missing_at(member_choices(evs, vs), k)),
                    diag.low_quality_license == (d0.low_quality_license || exists|k: int|
                        0 <= k < i && #[trigger] choice_low_at(member_choices(evs, vs), k)),
                    diag.issues@ == d0.issues@ + issues_of_choices(
                        member_choices(evs, vs.take(i as int)),
                    ),
                decreases ls.len() - i,
            {
                proof {
                    assert(vs[i as int] == crate::license::license_view(ls@[i as int]));
                    assert(!(vs[i as int] is Multiple));
                }
                let texts = better_find(entries, &ls[i]);
                let (bc, info) = choose_text(texts);
                proof {
                    assert((bc@, info) == member_choices(evs, vs)[i as int]);
                    assert(choice_missing_at(member_choices(evs, vs), i as int) == choice_missing(
                        bc@,
                        info,
                    ));
                    assert(choice_low_at(member_choices(evs, vs), i as int) == choice_low_quality(
                        bc@,
                        info,
                    ));
                }
                diag.record_choice(&bc, info);
                let ghost prev_choices = choices@;
                choices.push((bc, info));
                proof {
                    assert(choices@.map_values(|c: (BestChoice, LicenseInfo)| (c.0@, c.1))
                        =~= prev_choices.map_values(
                        |c: (BestChoice, LicenseInfo)| (c.0@, c.1),
                    ).push((bc@, info)));
                    assert(choices@.map_values(|c: (BestChoice, LicenseInfo)| (c.0@, c.1))
                        =~= member_choices(evs, vs.take(i as int + 1))) by {
                        assert(vs.take(i as int + 1).drop_last() =~= vs.take(i as int));
                        assert(vs.take(i as int + 1)[i as int] == vs[i as int]);
                        assert forall|q: int|
                            0 <= q < i + 1 implies member_choices(evs, vs.take(i as int + 1))[q]
                            == choose_spec(
                            better_find_spec(evs, vs[q]),
                        ) by {
                            assert(vs.take(i as int + 1)[q] == vs[q]);
                        }
                        assert forall|q: int|
                            0 <= q < i implies member_choices(evs, vs.take(i as int))[q]
                            == choose_spec(
                            better_find_spec(evs, vs[q]),
                        ) by {
                            assert(vs.take(i as int)[q] == vs[q]);
                        }
                    }
                    assert(member_choices(evs, vs.take(i as int + 1)).drop_last()
                        =~= member_choices(evs, vs.take(i as int)));
                    assert(member_choices(evs, vs.take(i as int + 1)).last() == member_choices(
                        evs,
                        vs,
                    )[i as int]);
                    assert(diag.issues@ =~= d0.issues@ + issues_of_choices(
                        member_choices(evs, vs.take(i as int + 1)),
                    ));
                }
                i = i + 1;
            }
            proof {
                assert(vs.take(ls@.len() as int) =~= vs);
                assert(member_choices(evs, vs.take(ls@.len() as int)) =~= member_choices(evs, vs));
                assert(get_lich_texts_spec(*package, evs) == FoundTextsView::Multiple(
                    member_choices(evs, vs),
                ));
            }
            proof {
                lemma_member_views(ls@);
                let cs = member_choices(evs, vs);
                assert(cs.len() == ls@.len());
                assert(d0 == *old(diag));
                if diag.missing_license && !d0.missing_license {
                    let k0 = choose|k: int|
                        0 <= k < i && #[trigger] choice_missing_at(member_choices(evs, vs), k);
                    assert(0 <= k0 < member_choices(evs, vs).len());
                    assert(lich_missing(FoundTextsView::Multiple(member_choices(evs, vs)))) by {
                        assert(choice_missing_at(member_choices(evs, vs), k0));
                    }
                }
                if lich_missing(FoundTextsView::Multiple(member_choices(evs, vs))) {
                    let k0 = choose|k: int|
                        0 <= k < member_choices(evs, vs).len() && #[trigger] choice_missing_at(
                            member_choices(evs, vs),
                            k,
                        );
                    assert(0 <= k0 < i);
                    assert(exists|k: int|
                        0 <= k < i && #[trigger] choice_missing_at(member_choices(evs, vs), k));
                }
                if diag.low_quality_license && !d0.low_quality_license {
                    let k0 = choose|k: int|
                        0 <= k < i && #[trigger] choice_low_at(member_choices(evs, vs), k);
                    assert(0 <= k0 < member_choices(evs, vs).len());
                    assert(lich_low_quality(FoundTextsView::Multiple(member_choices(evs, vs)))) by {
                        assert(choice_low_at(member_choices(evs, vs), k0));
                    }
                }
                if lich_low_quality(FoundTextsView::Multiple(member_choices(evs, vs))) {
                    let k0 = choose|k: int|
                        0 <= k < member_choices(evs, vs).len() && #[trigger] choice_low_at(
                            member_choices(evs, vs),
                            k,
                        );
                    assert(0 <= k0 < i);
                    assert(exists|k: int|
                        0 <= k < i && #[trigger] choice_low_at(member_choices(evs, vs), k));
                }
                assert(diag.missing_license == (d0.missing_license || lich_missing(
                    FoundTextsView::Multiple(member_choices(evs, vs)),
                )));
                assert(diag.low_quality_license == (d0.low_quality_license || lich_low_quality(
                    FoundTextsView::Multiple(member_choices(evs, vs)),
                )));
            }
            Lich::to_lich(package, license, FoundTexts::Multiple(choices))
        },
        _ => {
            proof {
                assert(!(license@ is Multiple));
                assert(!(license@ is Unspecified));
            }
            let texts = better_find(entries, &license);
            let (bc, info) = choose_text(texts);
            proof {
                assert(get_lich_texts_spec(*package, evs) == FoundTextsView::Single(bc@, info));
            }
            diag.record_choice(&bc, info);
            proof {
                assert(diag.missing_license == (old(diag).missing_license || lich_missing(
                    get_lich_texts_spec(*package, evs),
                )));
            }
            Lich::to_lich(package, license, FoundTexts::Single(bc, info))
        },
    }
}

/// The fixed order of the bundle report: by package name, ties broken by
/// version, both compared as plain text by code point.  Versions are not
/// compared by their numeric components, so a two-digit component sorts
/// before a shorter one ("1.10.0" before "1.9.0"); the order affects the
/// report layout alone.
pub open spec fn pkg_cmp(a: Package, b: Package) -> int {
    if chars_cmp(a.name@, b.name@) != 0 {
        chars_cmp(a.name@, b.name@)
    } else {
        chars_cmp(a.version@, b.version@)
    }
}

/// Stable insertion of a package (with its entries) under the report
/// order.
pub open spec fn insert_pe(
    x: (Package, Vec<FileEntry>),
    s: Seq<(Package, Vec<FileEntry>)>,
) -> Seq<(Package, Vec<FileEntry>)>
    decreases s.len(),
{
    if s.len() == 0 {
        seq![x]
    } else if pkg_cmp(s[0].0, x.0) <= 0 {
        seq![s[0]] + insert_pe(x, s.drop_first())
    } else {
        seq![x] + s
    }
}

/// Insertion sort of the report entries, processing left to right.
pub open spec fn sort_pe(s: Seq<(Package, Vec<FileEntry>)>) -> Seq<(Package, Vec<FileEntry>)>
    decreases s.len(),
{
    if s.len() == 0 {
        s
    } else {
        insert_pe(s.last(), sort_pe(s.drop_last()))
    }
}

/// `insert_pe` places its element at the first position whose entry
/// compares greater.
proof fn lemma_insert_pe_at(x: (Package, Vec<FileEntry>), s: Seq<(Package, Vec<FileEntry>)>, j: int)
    requires
        0 <= j <= s.len(),
        forall|i: int| 0 <= i < j ==> pkg_cmp((#[trigger] s[i]).0, x.0) <= 0,
        j < s.len() ==> pkg_cmp(s[j].0, x.0) > 0,
    ensures
        insert_pe(x, s) =~= s.subrange(0, j) + seq![x] + s.skip(j),
    decreases s.len(),
{
    if j == 0 {
        if s.len() > 0 {
            assert(insert_pe(x, s) =~= seq![x] + s);
        }
    } else {
        assert(pkg_cmp(s[0].0, x.0) <= 0);
        lemma_insert_pe_at(x, s.drop_first(), j - 1);
        assert(insert_pe(x, s) == seq![s[0]] + insert_pe(x, s.drop_first()));
        assert(s.drop_first().subrange(0, j - 1) =~= s.subrange(1, j));
        assert(s.drop_first().skip(j - 1) =~= s.skip(j));
        assert(seq![s[0]] + (s.subrange(1, j) + seq![x] + s.skip(j)) =~= s.subrange(0, j) + seq![x]
            + s.skip(j));
    }
}

/// Compares two packages under the report order.
fn pkg_cmp_exec(a: &Package, b: &Package) -> (r: i8)
    ensures
        r as int == pkg_cmp(*a, *b),
{
    let c = crate::textops::str_cmp(a.name.as_str(), b.name.as_str());
    if c != 0 {
        c
    } else {
        crate::textops::str_cmp(a.version.as_str(), b.version.as_str())
    }
}

/// Sorts the report entries by (package name, version), by stable
/// insertion.
fn sort_packages(v: Vec<(Package, Vec<FileEntry>)>) -> (r: Vec<(Package, Vec<FileEntry>)>)
    ensures
        r@ == sort_pe(v@),
{
    let ghost orig = v@;
    let mut v = v;
    let mut out: Vec<(Package, Vec<FileEntry>)> = Vec::new();
    let ghost k: int = 0;
    proof {
        assert(orig.take(0) =~= Seq::<(Package, Vec<FileEntry>)>::empty());
        assert(v@ =~= orig.skip(0));
    }
    while v.len() > 0
        invariant
            0 <= k <= orig.len(),
            v@ =~= orig.skip(k),
            v@.len() == orig.len() - k,
            out@ == sort_pe(orig.take(k)),
        decreases v@.len(),
    {
        let ghost prev = v@;
        let x = v.remove(0);
        proof {
            assert(x == orig.skip(k)[0]);
            assert(x == orig[k]);
            assert(v@ =~= prev.drop_first());
            assert(v@ =~= orig.skip(k + 1));
        }
        let mut j: usize = 0;
        while j < out.len() && pkg_cmp_exec(&out[j].0, &x.0) <= 0
            invariant
                0 <= j <= out.len(),
                forall|i: int| 0 <= i < j ==> pkg_cmp((#[trigger] out@[i]).0, x.0) <= 0,
            decreases out.len() - j,
        {
            j = j + 1;
        }
        proof {
            lemma_insert_pe_at(x, out@, j as int);
        }
        let ghost before = out@;
        out.insert(j, x);
        proof {
            assert(out@ =~= before.subrange(0, j as int) + seq![x] + before.skip(j as int));
            assert(out@ =~= insert_pe(x, before));
            assert(orig.take(k + 1).drop_last() =~= orig.take(k));
            assert(orig.take(k + 1).last() == orig[k]);
            assert(sort_pe(orig.take(k + 1)) == insert_pe(x, sort_pe(orig.take(k))));
            k = k + 1;
        }
    }
    proof {
        assert(orig.take(k) =~= orig);
    }
    out
}

/// The middle names of the roots, each behind a comma.
pub open spec fn roots_name_mids(rs: Seq<Package>, i: int) -> Seq<char>
    decreases rs.len() - i,
{
    if i < 0 || i >= rs.len() - 1 {
        Seq::empty()
    } else {
        ", "@ + rs[i].name@ + roots_name_mids(rs, i + 1)
    }
}

/// The display name of the root set: `"<name> package"` for one root, or
/// the names joined by commas and a final `" and "`, ending in
/// `" packages"`, for several.
pub open spec fn roots_name_spec(rs: Seq<Package>) -> Seq<char> {
    if rs.len() == 1 {
        rs[0].name@ + " package"@
    } else {
        rs[0].name@ + roots_name_mids(rs, 1) + " and "@ + rs[rs.len() - 1].name@ + " packages"@
    }
}

/// Renders the display name of the root set.
pub fn roots_name(roots: &Vec<Package>) -> (r: String)
    requires
        roots@.len() >= 1,
    ensures
        r@ == roots_name_spec(roots@),
{
    if roots.len() == 1 {
        let mut out = roots[0].name.clone();
        out.append(" package");
        out
    } else {
        let n = roots.len();
        let mut out = roots[0].name.clone();
        let mut i: usize = 1;
        while i < n - 1
            invariant
                1 <= i <= n - 1,
                n == roots@.len(),
                n >= 2,
                out@ + roots_name_mids(roots@, i as int) == roots@[0].name@ + roots_name_mids(
                    roots@,
                    1,
                ),
            decreases n - i,
        {
            out.append(", ");
            out.append(roots[i].name.as_str());
            proof {
                assert((out@ + roots_name_mids(roots@, i as int + 1)) =~= (out@ + roots_name_mids(
                    roots@,
                    i as int + 1,
                )));
                assert(roots_name_mids(roots@, i as int) == ", "@ + roots@[i as int].name@
                    + roots_name_mids(roots@, i as int + 1));
            }
            i = i + 1;
        }
        out.append(" and ");
        out.append(roots[n - 1].name.as_str());
        out.append(" packages");
        proof {
            assert(roots_name_mids(roots@, n - 1) =~= Seq::<char>::empty());
            assert(out@ =~= roots_name_spec(roots@));
        }
        out
    }
}

/// The diagnostic records of a whole run over the sorted report entries,
/// in order.
pub open spec fn run_issues(s: Seq<(Package, Vec<FileEntry>)>) -> Seq<LicenseInfo>
    decreases s.len(),
{
    if s.len() == 0 {
        Seq::empty()
    } else {
        run_issues(s.drop_last()) + lich_issues(
            get_lich_texts_spec(s.last().0, entry_views(s.last().1@)),
        )
    }
}

/// Everything a bundle run produced: the display name of the roots, the
/// found texts of every package in report order, and the run diagnostics.
#[derive(Debug)]
pub struct BundleReport {
    pub roots_name: String,
    pub liches: Vec<Lich>,
    pub diagnostics: RunDiagnostics,
}

impl BundleReport {
    /// Whether the run must be reported as failed: a license text was
    /// missing, or the best evidence was low quality.
    pub fn failed(&self) -> (r: bool)
        ensures
            r == (self.diagnostics.missing_license || self.diagnostics.low_quality_license),
    {
        self.diagnostics.missing_license || self.diagnostics.low_quality_license
    }
}

/// Collects the license texts of every package for the bundle: the
/// packages are put in report order (by name, then version), each one's
/// texts are discovered and chosen, and the run diagnostics accumulate
/// over all of them.  Writing the bundle out is the caller's business.
pub fn run(roots: &Vec<Package>, packages: Vec<(Package, Vec<FileEntry>)>) -> (r: BundleReport)
    requires
        roots@.len() >= 1,
    ensures
        r.roots_name@ == roots_name_spec(roots@),
        r.liches@.len() == packages@.len(),
        forall|i: int|
            0 <= i < r.liches@.len() ==> {
                let sorted = sort_pe(packages@);
                &&& (#[trigger] r.liches@[i]).package == sorted[i].0
                &&& r.liches@[i].license@ == declared_license_spec(sorted[i].0)
                &&& r.liches@[i].texts@ == get_lich_texts_spec(
                    sorted[i].0,
                    entry_views(sorted[i].1@),
                )
            },
        r.diagnostics.missing_license == (exists|i: int|
            0 <= i < packages@.len() && lich_missing(
                get_lich_texts_spec(
                    (#[trigger] sort_pe(packages@)[i]).0,
                    entry_views(sort_pe(packages@)[i].1@),
                ),
            )),
        r.diagnostics.low_quality_license == (exists|i: int|
            0 <= i < packages@.len() && lich_low_quality(
                get_lich_texts_spec(
                    (#[trigger] sort_pe(packages@)[i]).0,
                    entry_views(sort_pe(packages@)[i].1@),
                ),
            )),
        r.diagnostics.issues@ == run_issues(sort_pe(packages@)),
{
    let ghost sorted_spec = sort_pe(packages@);
    let name = roots_name(roots);
    let sorted = sort_packages(packages);
    let mut diag = RunDiagnostics::new();
    let mut liches: Vec<Lich> = Vec::new();
    let n = sorted.len();
    let ghost total = sorted@.len();
    let mut i: usize = 0;
    proof {
        lemma_sort_pe_len(packages@);
        assert(sorted@.take(0) =~= Seq::<(Package, Vec<FileEntry>)>::empty());
        assert(run_issues(sorted@.take(0)) =~= Seq::<LicenseInfo>::empty());
        assert(diag.issues@ =~= Seq::<LicenseInfo>::empty() + run_issues(sorted@.take(0)));
    }
    while i < n
        invariant
            0 <= i <= n,
            n == sorted@.len(),
            sorted@ == sorted_spec,
            liches@.len() == i,
            forall|q: int|
                0 <= q < i ==> {
                    &&& (#[trigger] liches@[q]).package == sorted@[q].0
                    &&& liches@[q].license@ == declared_license_spec(sorted@[q].0)
                    &&& liches@[q].texts@ == get_lich_texts_spec(
                        sorted@[q].0,
                        entry_views(sorted@[q].1@),
                    )
                },
            diag.missing_license == (exists|q: int|
                0 <= q < i && lich_missing(
                    get_lich_texts_spec(
                        (#[trigger] sorted@[q]).0,
                        entry_views(sorted@[q].1@),
                    ),
                )),
            diag.low_quality_license == (exists|q: int|
                0 <= q < i && lich_low_quality(
                    get_lich_texts_spec(
                        (#[trigger] sorted@[q]).0,
                        entry_views(sorted@[q].1@),
                    ),
                )),
            diag.issues@ == run_issues(sorted@.take(i as int)),
        decreases n - i,
    {
        let lich = get_lich(&sorted[i].0, &sorted[i].1, &mut diag);
        liches.push(lich);
        proof {
            assert(sorted@.take(i as int + 1).drop_last() =~= sorted@.take(i as int));
            assert(sorted@.take(i as int + 1).last() == sorted@[i as int]);
        }
        i = i + 1;
    }
    proof {
        assert(sorted@.take(n as int) =~= sorted@);
    }
    BundleReport { roots_name: name, liches, diagnostics: diag }
}

/// Sorting keeps the number of report entries.
proof fn lemma_sort_pe_len(s: Seq<(Package, Vec<FileEntry>)>)
    ensures
        sort_pe(s).len() == s.len(),
    decreases s.len(),
{
    if s.len() > 0 {
        lemma_sort_pe_len(s.drop_last());
        lemma_insert_pe_len(s.last(), sort_pe(s.drop_last()));
    }
}

/// Insertion grows the report by one entry.
proof fn lemma_insert_pe_len(x: (Package, Vec<FileEntry>), s: Seq<(Package, Vec<FileEntry>)>)
    ensures
        insert_pe(x, s).len() == s.len() + 1,
    decreases s.len(),
{
    if s.len() > 0 && pkg_cmp(s[0].0, x.0) <= 0 {
        lemma_insert_pe_len(x, s.drop_first());
    }
}

/// No candidates at all: the choice is absent, a missing-license record
/// is appended, and absorbing the choice sets the missing flag.
pub proof fn lemma_no_candidates(ts: Seq<LicenseTextView>)
    requires
        ts.len() == 0,
    ensures
        choose_spec(ts) == (BestChoiceView::Absent, LicenseInfo::MissingLicenseFile),
        choice_missing(choose_spec(ts).0, choose_spec(ts).1),
        recorded_issues(choose_spec(ts).0, choose_spec(ts).1) == seq![
            LicenseInfo::MissingLicenseFile,
        ],
{
    reveal(Seq::filter);
    assert(recorded_issues(choose_spec(ts).0, choose_spec(ts).1) =~= seq![
        LicenseInfo::MissingLicenseFile,
    ]);
}

} // verus!
