//! The code actions that are offered for a document.
use crate::document::Document;
use crate::document::Range;
use crate::operation::ActionOperation;
use crate::text;
use crate::validation;
use crate::validation::Diagnostic;
use crate::validation::Replaced;
use crate::validation::Shown;
use crate::validation::TextEdit;
use crate::validation::Told;
use crate::validation::ValidationIssue;
use crate::vault;
use crate::yaml;
use crate::yaml::ValueContext;
use vstd::prelude::*;

verus! {

pub const FIX_HEADER: &'static str = "Ansible Vault: Fix Vault Header";

pub const ENCRYPT_FILE: &'static str = "Ansible Vault: Encrypt File";

pub const DECRYPT_FILE: &'static str = "Ansible Vault: Decrypt File";

pub const ENCRYPT_VALUE: &'static str = "Ansible Vault: Encrypt YAML Value";

pub const DECRYPT_VALUE: &'static str = "Ansible Vault: Decrypt !vault Value";

/// A diagnostic that the editor asks for fixes of. A code that is not text is
/// left out.
#[derive(Clone, Debug)]
pub struct ContextDiagnostic {
    pub range: Range,
    pub code: Option<String>,
    pub source: Option<String>,
}

// ---------------------------------------------------------------------------
// Quick fixes
// ---------------------------------------------------------------------------

/// A fix, and the diagnostics that it takes care of.
#[derive(Debug)]
pub struct QuickFix {
    pub edit: TextEdit,
    pub diagnostics: Vec<Diagnostic>,
    /// The version of the document that the edit is made for.
    pub version: i32,
    /// Whether the editor may choose the fix by itself.
    pub preferred: bool,
}

/// A fix as contracts speak of it.
pub struct Fixing {
    pub edit: Replaced,
    pub diagnostics: Seq<Told>,
    pub version: i32,
    pub preferred: bool,
}

pub open spec fn all_told(diagnostics: Seq<Diagnostic>) -> Seq<Told> {
    Seq::new(diagnostics.len(), |i: int| diagnostics[i]@)
}

impl View for QuickFix {
    type V = Fixing;

    open spec fn view(&self) -> Fixing {
        Fixing {
            edit: self.edit@,
            diagnostics: all_told(self.diagnostics@),
            version: self.version,
            preferred: self.preferred,
        }
    }
}

/// Whether the editor asks for the fixes of an issue by naming its diagnostic.
pub open spec fn asked_for(issue: Shown, context: Seq<ContextDiagnostic>) -> bool {
    exists|k: int|
        0 <= k < context.len() && names(#[trigger] context[k], issue.diagnostic)
}

/// Whether the editor names a diagnostic.
pub open spec fn names(asked: ContextDiagnostic, diagnostic: Told) -> bool {
    &&& asked.source matches Some(source) && source@ == validation::DIAGNOSTIC_SOURCE@
    &&& asked.code matches Some(code) && code@ == diagnostic.code
    &&& asked.range == diagnostic.range
}

/// Whether the fix of an issue is wanted: the editor asks for it, or the selection
/// touches the diagnostic or what the fix replaces.
pub open spec fn wanted(
    issue: Shown,
    selection: Range,
    context: Seq<ContextDiagnostic>,
) -> bool {
    &&& issue.fix is Some
    &&& asked_for(issue, context) || validation::touches(selection, issue.diagnostic.range)
        || validation::touches(selection, (issue.fix->0).range)
}

/// Whether no issue before the `i`th has the same fix.
pub open spec fn first_with_fix(issues: Seq<Shown>, i: int) -> bool {
    issues[i].fix is Some && forall|j: int|
        0 <= j < i ==> (#[trigger] issues[j]).fix != issues[i].fix
}

/// The diagnostics of those of the first `n` issues that have a fix.
pub open spec fn told_with(issues: Seq<Shown>, fix: Replaced, n: int) -> Seq<Told>
    decreases n,
{
    if n <= 0 {
        Seq::empty()
    } else if issues[n - 1].fix == Some(fix) {
        told_with(issues, fix, n - 1).push(issues[n - 1].diagnostic)
    } else {
        told_with(issues, fix, n - 1)
    }
}

/// Whether a fix is wanted for any issue that has it.
pub open spec fn fix_wanted(
    issues: Seq<Shown>,
    fix: Replaced,
    selection: Range,
    context: Seq<ContextDiagnostic>,
) -> bool {
    exists|k: int|
        0 <= k < issues.len() && (#[trigger] issues[k]).fix == Some(fix) && wanted(
            issues[k],
            selection,
            context,
        )
}

/// The fixes that the first `n` issues bring, each once, with all the diagnostics
/// that it takes care of, where it is wanted. Each is preferred and made for the
/// given version of the document.
pub open spec fn fixes(
    issues: Seq<Shown>,
    n: int,
    version: i32,
    selection: Range,
    context: Seq<ContextDiagnostic>,
) -> Seq<Fixing>
    decreases n,
{
    if n <= 0 {
        Seq::empty()
    } else {
        let before = fixes(issues, n - 1, version, selection, context);
        if first_with_fix(issues, n - 1) && fix_wanted(
            issues,
            issues[n - 1].fix->0,
            selection,
            context,
        ) {
            let fix = issues[n - 1].fix->0;
            before.push(
                Fixing {
                    edit: fix,
                    diagnostics: told_with(issues, fix, issues.len() as int),
                    version,
                    preferred: true,
                },
            )
        } else {
            before
        }
    }
}

fn copied_diagnostic(diagnostic: &Diagnostic) -> (r: Diagnostic)
    ensures
        r@ == diagnostic@,
{
    Diagnostic {
        range: diagnostic.range,
        severity: diagnostic.severity,
        code: diagnostic.code.clone(),
        source: diagnostic.source.clone(),
        message: diagnostic.message.clone(),
    }
}

fn copied_edit(edit: &TextEdit) -> (r: TextEdit)
    ensures
        r@ == edit@,
{
    TextEdit { range: edit.range, new_text: edit.new_text.clone() }
}

fn same_edit(a: &TextEdit, b: &TextEdit) -> (r: bool)
    ensures
        r == (a@ == b@),
{
    a.range == b.range && text::same_str(a.new_text.as_str(), b.new_text.as_str())
}

fn has_fix(issue: &ValidationIssue, fix: &TextEdit) -> (r: bool)
    ensures
        r == (issue@.fix == Some(fix@)),
{
    match &issue.fix {
        Some(edit) => same_edit(edit, fix),
        None => false,
    }
}

fn is_asked_for(issue: &ValidationIssue, context: &Vec<ContextDiagnostic>) -> (r: bool)
    ensures
        r == asked_for(issue@, context@),
{
    for k in 0..context.len()
        invariant
            forall|j: int| 0 <= j < k ==> !names(#[trigger] context@[j], issue@.diagnostic),
    {
        let asked = &context[k];
        let ours = match &asked.source {
            Some(source) => text::same_str(source.as_str(), validation::DIAGNOSTIC_SOURCE),
            None => false,
        };
        let coded = match &asked.code {
            Some(code) => text::same_str(code.as_str(), issue.diagnostic.code.as_str()),
            None => false,
        };
        if ours && coded && asked.range == issue.diagnostic.range {
            proof {
                assert(names(context@[k as int], issue@.diagnostic));
            }
            return true;
        }
    }
    false
}

fn is_wanted(issue: &ValidationIssue, selection: Range, context: &Vec<ContextDiagnostic>) -> (r:
    bool)
    ensures
        r == wanted(issue@, selection, context@),
{
    match &issue.fix {
        Some(edit) => is_asked_for(issue, context) || validation::range_touches(
            selection,
            issue.diagnostic.range,
        ) || validation::range_touches(selection, edit.range),
        None => false,
    }
}

fn is_first_with_fix(issues: &Vec<ValidationIssue>, i: usize, fix: &TextEdit) -> (r: bool)
    requires
        i < issues@.len(),
        issues@[i as int]@.fix == Some(fix@),
    ensures
        r == first_with_fix(validation::issue_views(issues@), i as int),
{
    for j in 0..i
        invariant
            i < issues@.len(),
            issues@[i as int]@.fix == Some(fix@),
            forall|k: int| 0 <= k < j ==> (#[trigger] issues@[k])@.fix != Some(fix@),
    {
        if has_fix(&issues[j], fix) {
            proof {
                assert(validation::issue_views(issues@)[j as int] == issues@[j as int]@);
            }
            return false;
        }
    }
    true
}

fn is_fix_wanted(
    issues: &Vec<ValidationIssue>,
    fix: &TextEdit,
    selection: Range,
    context: &Vec<ContextDiagnostic>,
) -> (r: bool)
    ensures
        r == fix_wanted(validation::issue_views(issues@), fix@, selection, context@),
{
    for k in 0..issues.len()
        invariant
            forall|j: int|
                0 <= j < k ==> !((#[trigger] issues@[j])@.fix == Some(fix@) && wanted(
                    issues@[j]@,
                    selection,
                    context@,
                )),
    {
        if has_fix(&issues[k], fix) && is_wanted(&issues[k], selection, context) {
            proof {
                assert(validation::issue_views(issues@)[k as int] == issues@[k as int]@);
            }
            return true;
        }
    }
    false
}

fn diagnostics_with(issues: &Vec<ValidationIssue>, fix: &TextEdit) -> (r: Vec<Diagnostic>)
    ensures
        all_told(r@) == told_with(
            validation::issue_views(issues@),
            fix@,
            issues@.len() as int,
        ),
{
    let ghost all = validation::issue_views(issues@);
    let mut out: Vec<Diagnostic> = Vec::new();
    proof {
        assert(all_told(out@) =~= told_with(all, fix@, 0));
    }
    for k in 0..issues.len()
        invariant
            all == validation::issue_views(issues@),
            all_told(out@) == told_with(all, fix@, k as int),
    {
        proof {
            assert(all[k as int] == issues@[k as int]@);
        }
        if has_fix(&issues[k], fix) {
            let ghost before = out@;
            let copy = copied_diagnostic(&issues[k].diagnostic);
            out.push(copy);
            proof {
                assert(all_told(out@) =~= all_told(before).push(copy@));
            }
        }
    }
    out
}

/// A list of fixes as contracts speak of it.
pub open spec fn all_fixing(quick_fixes: Seq<QuickFix>) -> Seq<Fixing> {
    Seq::new(quick_fixes.len(), |i: int| quick_fixes[i]@)
}

/// The fixes that the issues of a version of a document bring.
pub fn quick_fixes_of(
    issues: &Vec<ValidationIssue>,
    version: i32,
    selection: Range,
    context: &Vec<ContextDiagnostic>,
) -> (r: Vec<QuickFix>)
    ensures
        all_fixing(r@) == fixes(
            validation::issue_views(issues@),
            issues@.len() as int,
            version,
            selection,
            context@,
        ),
{
    let ghost all = validation::issue_views(issues@);
    let mut out: Vec<QuickFix> = Vec::new();
    proof {
        assert(all_fixing(out@) =~= fixes(all, 0, version, selection, context@));
    }
    for i in 0..issues.len()
        invariant
            all == validation::issue_views(issues@),
            all_fixing(out@) == fixes(all, i as int, version, selection, context@),
    {
        proof {
            assert(all[i as int] == issues@[i as int]@);
        }
        match &issues[i].fix {
            None => {},
            Some(fix) => {
                if is_first_with_fix(issues, i, fix) && is_fix_wanted(
                    issues,
                    fix,
                    selection,
                    context,
                ) {
                    let ghost before = out@;
                    let quick_fix = QuickFix {
                        edit: copied_edit(fix),
                        diagnostics: diagnostics_with(issues, fix),
                        version,
                        preferred: true,
                    };
                    out.push(quick_fix);
                    proof {
                        assert(all_fixing(out@) =~= all_fixing(before).push(quick_fix@));
                    }
                }
            },
        }
    }
    out
}

/// The header fixes that are offered for a version of a text.
pub open spec fn document_fixes(
    s: Seq<char>,
    version: i32,
    selection: Range,
    context: Seq<ContextDiagnostic>,
) -> Seq<Fixing> {
    let issues = validation::issues_of(s);
    fixes(issues, issues.len() as int, version, selection, context)
}

/// The header fixes that are offered for a document.
pub fn validation_quick_fixes(
    document: &Document,
    selection: Range,
    context: &Vec<ContextDiagnostic>,
) -> (r: Vec<QuickFix>)
    ensures
        all_fixing(r@) == document_fixes(document.text@, document.version, selection, context@),
        forall|i: int|
            0 <= i < r@.len() ==> (#[trigger] r@[i]).version == document.version && r@[i].preferred,
{
    let issues = validation::validate_vault_document(document.text.as_str());
    let found = quick_fixes_of(&issues, document.version, selection, context);
    proof {
        let all = validation::issue_views(issues@);
        lemma_fixes_are_for_their_version(
            all,
            all.len() as int,
            document.version,
            selection,
            context@,
        );
        assert forall|i: int| 0 <= i < found@.len() implies (#[trigger] found@[i]).version
            == document.version && found@[i].preferred by {
            assert(all_fixing(found@)[i] == found@[i]@);
        }
    }
    found
}

// ---------------------------------------------------------------------------
// Offers
// ---------------------------------------------------------------------------

/// The operations that are offered besides fixes. A document that is meant to be a
/// Vault file can be decrypted as a file. Any other can be encrypted as a file, and
/// the value that the selection means can be encrypted or decrypted. File
/// operations need a file.
pub open spec fn offered(
    candidate: bool,
    on_disk: bool,
    value: Option<ValueContext>,
) -> Seq<ActionOperation> {
    if candidate {
        if on_disk {
            seq![ActionOperation::DecryptFile]
        } else {
            Seq::empty()
        }
    } else {
        (if on_disk {
            seq![ActionOperation::EncryptFile]
        } else {
            Seq::empty()
        }) + match value {
            Some(ValueContext::Vault) => seq![ActionOperation::DecryptValue],
            Some(ValueContext::Plaintext) => seq![ActionOperation::EncryptValue],
            None => Seq::empty(),
        }
    }
}

/// What a selection points at.
pub open spec fn value_at(s: Seq<char>, selection: Range) -> Option<ValueContext> {
    if yaml::found_vault(s, selection) is Ok {
        Some(ValueContext::Vault)
    } else if yaml::found_scalar(s, selection) is Ok {
        Some(ValueContext::Plaintext)
    } else {
        None
    }
}

/// The title under which an operation is offered.
pub open spec fn title_text(operation: ActionOperation) -> Seq<char> {
    match operation {
        ActionOperation::EncryptFile => ENCRYPT_FILE@,
        ActionOperation::DecryptFile => DECRYPT_FILE@,
        ActionOperation::EncryptValue => ENCRYPT_VALUE@,
        ActionOperation::DecryptValue => DECRYPT_VALUE@,
    }
}

/// The title under which an operation is offered.
pub fn title(operation: ActionOperation) -> (r: &'static str)
    ensures
        r@ == title_text(operation),
{
    match operation {
        ActionOperation::EncryptFile => ENCRYPT_FILE,
        ActionOperation::DecryptFile => DECRYPT_FILE,
        ActionOperation::EncryptValue => ENCRYPT_VALUE,
        ActionOperation::DecryptValue => DECRYPT_VALUE,
    }
}

/// The operations that are offered, given what the document is and what the
/// selection points at.
pub fn offered_operations(candidate: bool, on_disk: bool, value: Option<ValueContext>) -> (r: Vec<
    ActionOperation,
>)
    ensures
        r@ == offered(candidate, on_disk, value),
{
    let mut out: Vec<ActionOperation> = Vec::new();
    if candidate {
        if on_disk {
            out.push(ActionOperation::DecryptFile);
        }
    } else {
        if on_disk {
            out.push(ActionOperation::EncryptFile);
        }
        match value {
            Some(ValueContext::Vault) => {
                out.push(ActionOperation::DecryptValue);
            },
            Some(ValueContext::Plaintext) => {
                out.push(ActionOperation::EncryptValue);
            },
            None => {},
        }
    }
    proof {
        assert(out@ =~= offered(candidate, on_disk, value));
    }
    out
}

/// What is offered for a document.
#[derive(Debug)]
pub struct Offers {
    pub fixes: Vec<QuickFix>,
    pub operations: Vec<ActionOperation>,
}

/// What is answered where the given fixes and operations are to be offered, if anything is.
pub open spec fn answer(fixes: Seq<Fixing>, operations: Seq<ActionOperation>) -> Option<
    (Seq<Fixing>, Seq<ActionOperation>),
> {
    if fixes.len() == 0 && operations.len() == 0 {
        None
    } else {
        Some((fixes, operations))
    }
}

/// The code actions for a selection in a document. `on_disk` tells whether the
/// document is a file. There is no answer where there is nothing to offer.
pub fn code_action(
    document: &Document,
    on_disk: bool,
    selection: Range,
    context: &Vec<ContextDiagnostic>,
) -> (r: Option<Offers>)
    ensures
        ({
            let s = document.text@;
            let found = document_fixes(s, document.version, selection, context@);
            let operations = offered(
                validation::file_candidate(s),
                on_disk,
                value_at(s, selection),
            );
            match r {
                Some(offers) => all_fixing(offers.fixes@) == found && offers.operations@
                    == operations && (found.len() > 0 || operations.len() > 0),
                None => found.len() == 0 && operations.len() == 0,
            }
        }),
        answer(
            document_fixes(document.text@, document.version, selection, context@),
            offered(
                validation::file_candidate(document.text@),
                on_disk,
                value_at(document.text@, selection),
            ),
        ) == match r {
            Some(offers) => Some((all_fixing(offers.fixes@), offers.operations@)),
            None => None,
        },
{
    let text = document.text.as_str();
    let found = validation_quick_fixes(document, selection, context);
    let candidate = validation::is_vault_file_candidate(text);
    let value = if candidate {
        None
    } else {
        yaml::classify_value(text, selection)
    };
    let operations = offered_operations(candidate, on_disk, value);
    proof {
        assert(operations@ == offered(candidate, on_disk, value_at(document.text@, selection)));
        assert(all_fixing(found@).len() == found@.len());
    }
    if found.len() == 0 && operations.len() == 0 {
        None
    } else {
        Some(Offers { fixes: found, operations })
    }
}

// ---------------------------------------------------------------------------
// Laws
// ---------------------------------------------------------------------------

/// A file that is meant to be a Vault payload, even a damaged one, is never offered
/// for encryption, and nothing inside it is treated as a value.
pub proof fn law_candidates_are_never_encrypted(on_disk: bool, value: Option<ValueContext>)
    ensures
        !offered(true, on_disk, value).contains(ActionOperation::EncryptFile),
        !offered(true, on_disk, value).contains(ActionOperation::EncryptValue),
        !offered(true, on_disk, value).contains(ActionOperation::DecryptValue),
        offered(true, true, value) == seq![ActionOperation::DecryptFile],
        offered(true, false, value).len() == 0,
{
}

/// A document is never offered both ways: encryption and decryption of the file, or
/// of the value, exclude each other.
pub proof fn law_offers_do_not_contradict(
    candidate: bool,
    on_disk: bool,
    value: Option<ValueContext>,
)
    ensures
        ({
            let operations = offered(candidate, on_disk, value);
            &&& !(operations.contains(ActionOperation::EncryptFile) && operations.contains(
                ActionOperation::DecryptFile,
            ))
            &&& !(operations.contains(ActionOperation::EncryptValue) && operations.contains(
                ActionOperation::DecryptValue,
            ))
        }),
{
}

/// File operations are only offered for files.
pub proof fn law_file_operations_need_a_file(candidate: bool, value: Option<ValueContext>)
    ensures
        !offered(candidate, false, value).contains(ActionOperation::EncryptFile),
        !offered(candidate, false, value).contains(ActionOperation::DecryptFile),
{
}

proof fn lemma_fixes_are_for_their_version(
    issues: Seq<Shown>,
    n: int,
    version: i32,
    selection: Range,
    context: Seq<ContextDiagnostic>,
)
    requires
        0 <= n <= issues.len(),
    ensures
        forall|i: int|
            0 <= i < fixes(issues, n, version, selection, context).len() ==> (#[trigger] fixes(
                issues,
                n,
                version,
                selection,
                context,
            )[i]).version == version && fixes(
                issues,
                n,
                version,
                selection,
                context,
            )[i].preferred,
    decreases n,
{
    if n > 0 {
        lemma_fixes_are_for_their_version(issues, n - 1, version, selection, context);
        let before = fixes(issues, n - 1, version, selection, context);
        let all = fixes(issues, n, version, selection, context);
        assert forall|i: int| 0 <= i < all.len() implies (#[trigger] all[i]).version == version
            && all[i].preferred by {
            if i < before.len() {
                assert(all[i] == before[i]);
            }
        }
    }
}

proof fn lemma_fix_comes_from_an_issue(
    issues: Seq<Shown>,
    n: int,
    version: i32,
    selection: Range,
    context: Seq<ContextDiagnostic>,
    i: int,
) -> (k: int)
    requires
        0 <= n <= issues.len(),
        0 <= i < fixes(issues, n, version, selection, context).len(),
    ensures
        0 <= k < n,
        first_with_fix(issues, k),
        issues[k].fix == Some(fixes(issues, n, version, selection, context)[i].edit),
    decreases n,
{
    let before = fixes(issues, n - 1, version, selection, context);
    if i < before.len() {
        assert(fixes(issues, n, version, selection, context)[i] == before[i]);
        lemma_fix_comes_from_an_issue(issues, n - 1, version, selection, context, i)
    } else {
        n - 1
    }
}

/// No two quick fixes are the same edit: the problems of one header share one fix.
pub proof fn law_fixes_are_distinct(
    issues: Seq<Shown>,
    n: int,
    version: i32,
    selection: Range,
    context: Seq<ContextDiagnostic>,
    i: int,
    j: int,
)
    requires
        0 <= n <= issues.len(),
        0 <= i < j < fixes(issues, n, version, selection, context).len(),
    ensures
        fixes(issues, n, version, selection, context)[i].edit != fixes(
            issues,
            n,
            version,
            selection,
            context,
        )[j].edit,
    decreases n,
{
    let before = fixes(issues, n - 1, version, selection, context);
    let all = fixes(issues, n, version, selection, context);
    assert(all[i] == before[i]);
    if j < before.len() {
        assert(all[j] == before[j]);
        law_fixes_are_distinct(issues, n - 1, version, selection, context, i, j);
    } else {
        let k = lemma_fix_comes_from_an_issue(issues, n - 1, version, selection, context, i);
        assert(issues[k].fix != issues[n - 1].fix);
    }
}

/// A file that is not meant to be a Vault payload is always offered for encryption,
/// wherever the cursor is.
pub proof fn law_regular_files_can_be_encrypted(value: Option<ValueContext>)
    ensures
        offered(false, true, value).contains(ActionOperation::EncryptFile),
{
    assert(offered(false, true, value)[0] == ActionOperation::EncryptFile);
}

proof fn lemma_no_fix_no_offer(
    issues: Seq<Shown>,
    n: int,
    version: i32,
    selection: Range,
    context: Seq<ContextDiagnostic>,
)
    requires
        0 <= n <= issues.len(),
        forall|i: int| 0 <= i < issues.len() ==> (#[trigger] issues[i]).fix is None,
    ensures
        fixes(issues, n, version, selection, context).len() == 0,
    decreases n,
{
    if n > 0 {
        lemma_no_fix_no_offer(issues, n - 1, version, selection, context);
        assert(issues[n - 1].fix is None);
    }
}

/// A valid Vault file is offered for decryption and for nothing else, not even a
/// repair of its header, wherever the cursor is.
pub proof fn law_vault_files_can_only_be_decrypted(
    s: Seq<char>,
    version: i32,
    selection: Range,
    context: Seq<ContextDiagnostic>,
)
    requires
        vault::vault_file(s),
    ensures
        offered(validation::file_candidate(s), true, value_at(s, selection)) == seq![
            ActionOperation::DecryptFile,
        ],
        document_fixes(s, version, selection, context).len() == 0,
{
    vault::law_vault_files_are_candidates(s);
    vault::law_vault_files_need_no_fix(s);
    let issues = validation::issues_of(s);
    assert forall|i: int| 0 <= i < issues.len() implies (#[trigger] issues[i]).fix is None by {
        assert(validation::findings(s)[i].fix is None);
    }
    lemma_no_fix_no_offer(issues, issues.len() as int, version, selection, context);
}

/// Where a `!vault` value is selected, even one with a damaged header, its
/// decryption is offered in a regular file, and encryption of a value never is.
pub proof fn law_vault_values_are_never_encrypted(s: Seq<char>, selection: Range, on_disk: bool)
    requires
        yaml::found_vault(s, selection) is Ok,
        !validation::file_candidate(s),
    ensures
        offered(false, on_disk, value_at(s, selection)).contains(ActionOperation::DecryptValue),
        !offered(false, on_disk, value_at(s, selection)).contains(ActionOperation::EncryptValue),
{
    let operations = offered(false, on_disk, value_at(s, selection));
    assert(operations[operations.len() - 1] == ActionOperation::DecryptValue);
}

proof fn lemma_fix_is_taken_up(
    issues: Seq<Shown>,
    n: int,
    version: i32,
    selection: Range,
    context: Seq<ContextDiagnostic>,
    m: int,
) -> (i: int)
    requires
        0 <= m < n <= issues.len(),
        first_with_fix(issues, m),
        fix_wanted(issues, issues[m].fix->0, selection, context),
    ensures
        0 <= i < fixes(issues, n, version, selection, context).len(),
        fixes(issues, n, version, selection, context)[i] == (Fixing {
            edit: issues[m].fix->0,
            diagnostics: told_with(issues, issues[m].fix->0, issues.len() as int),
            version,
            preferred: true,
        }),
    decreases n,
{
    let before = fixes(issues, n - 1, version, selection, context);
    if m < n - 1 {
        let i = lemma_fix_is_taken_up(issues, n - 1, version, selection, context, m);
        assert(fixes(issues, n, version, selection, context)[i] == before[i]);
        i
    } else {
        before.len() as int
    }
}

proof fn lemma_first_with(issues: Seq<Shown>, k: int) -> (m: int)
    requires
        0 <= k < issues.len(),
        issues[k].fix is Some,
    ensures
        0 <= m <= k,
        issues[m].fix == issues[k].fix,
        first_with_fix(issues, m),
    decreases k,
{
    if first_with_fix(issues, k) {
        k
    } else {
        let j = choose|j: int| 0 <= j < k && (#[trigger] issues[j]).fix == issues[k].fix;
        lemma_first_with(issues, j)
    }
}

proof fn lemma_told_with(issues: Seq<Shown>, fix: Replaced, n: int, k: int)
    requires
        0 <= k < n <= issues.len(),
        issues[k].fix == Some(fix),
    ensures
        told_with(issues, fix, n).contains(issues[k].diagnostic),
    decreases n,
{
    let all = told_with(issues, fix, n);
    let before = told_with(issues, fix, n - 1);
    if k < n - 1 {
        lemma_told_with(issues, fix, n - 1, k);
        let j = choose|j: int| 0 <= j < before.len() && before[j] == issues[k].diagnostic;
        assert(all[j] == before[j]);
    } else {
        assert(all[all.len() - 1] == issues[k].diagnostic);
    }
}

/// Whether the editor names a diagnostic of this server by its source, its code and its
/// range.
pub open spec fn points_at(asked: ContextDiagnostic, diagnostic: Told) -> bool {
    &&& asked.source matches Some(source) && source@ == "ansible-vault"@
    &&& asked.code matches Some(code) && code@ == diagnostic.code
    &&& asked.range == diagnostic.range
}

/// A repair is offered where the selection touches what is wrong or what the repair
/// replaces, and where the editor asks for it by name. It is preferred, is made for the
/// version of the document, and takes care of everything that it repairs.
pub proof fn law_repairs_are_offered_where_they_are_wanted(
    s: Seq<char>,
    version: i32,
    selection: Range,
    context: Seq<ContextDiagnostic>,
    k: int,
    fix: Replaced,
) -> (i: int)
    requires
        0 <= k < validation::issues_of(s).len(),
        validation::issues_of(s)[k].fix == Some(fix),
        validation::touches(selection, validation::issues_of(s)[k].diagnostic.range)
            || validation::touches(selection, fix.range) || exists|c: int|
            0 <= c < context.len() && points_at(
                #[trigger] context[c],
                validation::issues_of(s)[k].diagnostic,
            ),
    ensures
        ({
            let issues = validation::issues_of(s);
            let offers = document_fixes(s, version, selection, context);
            &&& 0 <= i < offers.len()
            &&& offers[i].edit == fix
            &&& offers[i].version == version
            &&& offers[i].preferred
            &&& forall|j: int|
                0 <= j < issues.len() && (#[trigger] issues[j]).fix == Some(fix)
                    ==> offers[i].diagnostics.contains(issues[j].diagnostic)
        }),
{
    let issues = validation::issues_of(s);
    let n = issues.len() as int;
    if exists|c: int|
        0 <= c < context.len() && points_at(#[trigger] context[c], issues[k].diagnostic) {
        let c = choose|c: int|
            0 <= c < context.len() && points_at(#[trigger] context[c], issues[k].diagnostic);
        assert(names(context[c], issues[k].diagnostic));
    }
    assert(wanted(issues[k], selection, context));
    let m = lemma_first_with(issues, k);
    assert(fix_wanted(issues, issues[m].fix->0, selection, context));
    let i = lemma_fix_is_taken_up(issues, n, version, selection, context, m);
    let offers = document_fixes(s, version, selection, context);
    assert forall|j: int|
        0 <= j < issues.len() && (#[trigger] issues[j]).fix == Some(
            fix,
        ) implies offers[i].diagnostics.contains(issues[j].diagnostic) by {
        lemma_told_with(issues, fix, n, j);
    }
    i
}

proof fn lemma_offered_fix_is_wanted(
    issues: Seq<Shown>,
    n: int,
    version: i32,
    selection: Range,
    context: Seq<ContextDiagnostic>,
    i: int,
) -> (k: int)
    requires
        0 <= n <= issues.len(),
        0 <= i < fixes(issues, n, version, selection, context).len(),
    ensures
        0 <= k < issues.len(),
        issues[k].fix == Some(fixes(issues, n, version, selection, context)[i].edit),
        wanted(issues[k], selection, context),
    decreases n,
{
    let before = fixes(issues, n - 1, version, selection, context);
    if i < before.len() {
        assert(fixes(issues, n, version, selection, context)[i] == before[i]);
        lemma_offered_fix_is_wanted(issues, n - 1, version, selection, context, i)
    } else {
        let fix = issues[n - 1].fix->0;
        choose|k: int|
            0 <= k < issues.len() && (#[trigger] issues[k]).fix == Some(fix) && wanted(
                issues[k],
                selection,
                context,
            )
    }
}

/// No repair is offered that is not wanted: the selection touches something that it repairs
/// or replaces, or the editor asks for it by name.
pub proof fn law_only_wanted_repairs_are_offered(
    s: Seq<char>,
    version: i32,
    selection: Range,
    context: Seq<ContextDiagnostic>,
    i: int,
) -> (k: int)
    requires
        0 <= i < document_fixes(s, version, selection, context).len(),
    ensures
        ({
            let issues = validation::issues_of(s);
            let fix = document_fixes(s, version, selection, context)[i].edit;
            &&& 0 <= k < issues.len()
            &&& issues[k].fix == Some(fix)
            &&& validation::touches(selection, issues[k].diagnostic.range) || validation::touches(
                selection,
                fix.range,
            ) || exists|c: int|
                0 <= c < context.len() && points_at(#[trigger] context[c], issues[k].diagnostic)
        }),
{
    let issues = validation::issues_of(s);
    let n = issues.len() as int;
    let k = lemma_offered_fix_is_wanted(issues, n, version, selection, context, i);
    if asked_for(issues[k], context) {
        let c = choose|c: int|
            0 <= c < context.len() && names(#[trigger] context[c], issues[k].diagnostic);
        assert(points_at(context[c], issues[k].diagnostic));
    }
    k
}

/// What is offered in a document that is no Vault file: encryption of the file first, where
/// there is one, then decryption where a `!vault` value is selected, and encryption where a
/// plain value is.
pub proof fn law_offers_follow_the_selection(s: Seq<char>, selection: Range)
    ensures
        yaml::found_vault(s, selection) is Ok ==> offered(false, true, value_at(s, selection))
            == seq![ActionOperation::EncryptFile, ActionOperation::DecryptValue] && offered(
            false,
            false,
            value_at(s, selection),
        ) == seq![ActionOperation::DecryptValue],
        yaml::found_vault(s, selection) is Err && yaml::found_scalar(s, selection) is Ok
            ==> offered(false, true, value_at(s, selection)) == seq![
            ActionOperation::EncryptFile,
            ActionOperation::EncryptValue,
        ] && offered(false, false, value_at(s, selection)) == seq![ActionOperation::EncryptValue],
        yaml::found_vault(s, selection) is Err && yaml::found_scalar(s, selection) is Err
            ==> offered(false, true, value_at(s, selection)) == seq![ActionOperation::EncryptFile]
            && offered(false, false, value_at(s, selection)).len() == 0,
{
    let value = value_at(s, selection);
    assert(offered(false, true, value).len() <= 2);
    assert(offered(false, true, Some(ValueContext::Vault)) =~= seq![
        ActionOperation::EncryptFile,
        ActionOperation::DecryptValue,
    ]);
    assert(offered(false, true, Some(ValueContext::Plaintext)) =~= seq![
        ActionOperation::EncryptFile,
        ActionOperation::EncryptValue,
    ]);
    assert(offered(false, true, None) =~= seq![ActionOperation::EncryptFile]);
    assert(offered(false, false, Some(ValueContext::Vault)) =~= seq![
        ActionOperation::DecryptValue,
    ]);
    assert(offered(false, false, Some(ValueContext::Plaintext)) =~= seq![
        ActionOperation::EncryptValue,
    ]);
}

/// Every offer says what it does, and stands for the operation of the same name.
pub proof fn law_titles_say_what_is_done(action: ActionOperation)
    ensures
        FIX_HEADER@ == "Ansible Vault: Fix Vault Header"@,
        title_text(ActionOperation::EncryptFile) == "Ansible Vault: Encrypt File"@,
        title_text(ActionOperation::DecryptFile) == "Ansible Vault: Decrypt File"@,
        title_text(ActionOperation::EncryptValue) == "Ansible Vault: Encrypt YAML Value"@,
        title_text(ActionOperation::DecryptValue) == "Ansible Vault: Decrypt !vault Value"@,
        crate::operation::operation_of(action) == match action {
            ActionOperation::EncryptFile => crate::operation::Operation::EncryptFile,
            ActionOperation::DecryptFile => crate::operation::Operation::DecryptFile,
            ActionOperation::EncryptValue => crate::operation::Operation::EncryptValue,
            ActionOperation::DecryptValue => crate::operation::Operation::DecryptValue,
        },
{
}

/// Everything that is found is offered, and there is no answer only where nothing is.
pub proof fn law_answers_hold_every_offer(fixes: Seq<Fixing>, operations: Seq<ActionOperation>)
    ensures
        answer(fixes, operations) is None <==> fixes.len() == 0 && operations.len() == 0,
        answer(fixes, operations) matches Some(offers) ==> offers.0 == fixes && offers.1
            == operations,
{
}

} // verus!
