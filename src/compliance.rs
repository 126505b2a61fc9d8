use vstd::prelude::*;
use vstd::string::StringExecFns;
use crate::model::Machine;

verus! {

/// The outcome of one compliance check on one machine.
pub struct CheckResult {
    pub passed: bool,
    pub details: String,
}

/// A compliance control that can be evaluated against a machine.
pub trait ComplianceCheck {
    fn check_id(&self) -> &'static str;

    fn description(&self) -> &'static str;

    fn check(&self, machine: &Machine) -> CheckResult;
}

/// ISO 27001 A.12.2.1: controls against malware.
#[allow(non_camel_case_types)]
pub struct ISO27001_A12_2_1;

/// GDPR article 32: security of processing.
#[allow(non_camel_case_types)]
pub struct GDPR_Article32;

impl ComplianceCheck for ISO27001_A12_2_1 {
    fn check_id(&self) -> (r: &'static str)
        ensures
            r@ == "ISO27001-A.12.2.1"@,
    {
        "ISO27001-A.12.2.1"
    }

    fn description(&self) -> (r: &'static str)
        ensures
            r@ == "Controlo contra software malicioso - Antivírus instalado"@,
    {
        "Controlo contra software malicioso - Antivírus instalado"
    }

    fn check(&self, _machine: &Machine) -> (r: CheckResult)
        ensures
            r.passed,
            r.details@ == "Verificação de antivírus implementada"@,
    {
        CheckResult { passed: true, details: String::from_str("Verificação de antivírus implementada") }
    }
}

impl ComplianceCheck for GDPR_Article32 {
    fn check_id(&self) -> (r: &'static str)
        ensures
            r@ == "GDPR-Article-32"@,
    {
        "GDPR-Article-32"
    }

    fn description(&self) -> (r: &'static str)
        ensures
            r@ == "Segurança do processamento - Encriptação de disco"@,
    {
        "Segurança do processamento - Encriptação de disco"
    }

    fn check(&self, _machine: &Machine) -> (r: CheckResult)
        ensures
            !r.passed,
            r.details@ == "Encriptação de disco não detectada"@,
    {
        CheckResult { passed: false, details: String::from_str("Encriptação de disco não detectada") }
    }
}

/// Evaluates every known control against `machine`, in a fixed order: the
/// malware control passes and the disk-encryption control fails.
pub fn run_all_checks(machine: &Machine) -> (r: Vec<(String, CheckResult)>)
    ensures
        r@.len() == 2,
        r@[0].0@ == "ISO27001-A.12.2.1"@,
        r@[0].1.passed,
        r@[0].1.details@ == "Verificação de antivírus implementada"@,
        r@[1].0@ == "GDPR-Article-32"@,
        !r@[1].1.passed,
        r@[1].1.details@ == "Encriptação de disco não detectada"@,
{
    let malware = ISO27001_A12_2_1;
    let encryption = GDPR_Article32;
    let mut out: Vec<(String, CheckResult)> = Vec::new();
    out.push((String::from_str(malware.check_id()), malware.check(machine)));
    out.push((String::from_str(encryption.check_id()), encryption.check(machine)));
    out
}

} // verus!
