//! The root certificate: whether it is installed, and how installing it goes.
use vstd::prelude::*;
use crate::{digits, text};

verus! {

broadcast use vstd::string::group_string_axioms;

/// Whether the root certificate is installed.
pub struct CertStatus {
    pub installed: bool,
}

/// The name of the root certificate.
pub const CA_NAME: &'static str = "TraeDeviceProxyCA";

/// The exit code of an access that was denied, as a signed number.
pub const E_ACCESSDENIED: i32 = -2147024891;

/// What an exit code means.
pub open spec fn exit_meaning(code: Option<i32>) -> Seq<char> {
    match code {
        Some(c) => if c == 1223 {
            "用户取消了 UAC 授权"@
        } else if c == 5 || c == E_ACCESSDENIED {
            "证书文件权限不足（拒绝访问），可尝试删除数据目录下 certs 文件夹后重试"@
        } else {
            "可能需要管理员权限或证书文件不可读"@
        },
        None => "进程异常退出"@,
    }
}

/// What an exit code means.
pub fn explain_certutil_exit(code: Option<i32>) -> (r: &'static str)
    ensures
        r@ == exit_meaning(code),
{
    match code {
        Some(c) => if c == 1223 {
            "用户取消了 UAC 授权"
        } else if c == 5 || c == E_ACCESSDENIED {
            "证书文件权限不足（拒绝访问），可尝试删除数据目录下 certs 文件夹后重试"
        } else {
            "可能需要管理员权限或证书文件不可读"
        },
        None => "进程异常退出",
    }
}

/// Whether the root certificate is installed, by what the system lists; not where it lists
/// nothing.
pub open spec fn is_listed(listing: Option<Seq<u8>>) -> bool {
    match listing {
        Some(bytes) => text::has_text(text::bytes_shown(bytes), CA_NAME@),
        None => false,
    }
}

/// Whether the root certificate is installed, by what the system lists.
pub fn cert_status(listing: Option<&[u8]>) -> (r: CertStatus)
    ensures
        r.installed == is_listed(match listing {
            Some(b) => Some(b@),
            None => None,
        }),
{
    match listing {
        Some(bytes) => {
            let shown = text::bytes_text(bytes);
            CertStatus { installed: text::contains(shown.as_str(), CA_NAME) }
        },
        None => CertStatus { installed: false },
    }
}

/// The command that installs a certificate with the rights of an administrator. Where they are
/// not given, it ends with a code of its own.
pub fn install_command(cer_path: &str) -> (r: String)
    ensures
        r@ == "try { $p = Start-Process certutil -ArgumentList '-addstore','-f','Root','\""@ + text::replaced(
            cer_path@,
            '\\',
            "/"@,
        )
            + "\"' -Verb RunAs -Wait -PassThru -ErrorAction Stop; exit $p.ExitCode } catch { exit 1223 }"@,
{
    let arg = text::replace_char(cer_path, '\\', "/");
    text::cat3(
        "try { $p = Start-Process certutil -ArgumentList '-addstore','-f','Root','\"",
        arg.as_str(),
        "\"' -Verb RunAs -Wait -PassThru -ErrorAction Stop; exit $p.ExitCode } catch { exit 1223 }",
    )
}

/// Why installing could not start.
pub fn launch_error(error: &str) -> (r: String)
    ensures
        r@ == "启动证书安装失败: "@ + error@,
{
    text::cat("启动证书安装失败: ", error)
}

/// An exit code as it is shown.
pub open spec fn code_shown(code: Option<i32>) -> Seq<char> {
    match code {
        Some(c) => "Some("@ + digits::decimal(c as int) + ")"@,
        None => "None"@,
    }
}

/// Why installing failed.
pub open spec fn failure(code: Option<i32>) -> Seq<char> {
    "证书安装被取消或失败（"@ + exit_meaning(code) + "；certutil 退出码 "@ + code_shown(code) + "）"@
}

/// Why installing failed.
pub fn install_failure(code: Option<i32>) -> (r: String)
    ensures
        r@ == failure(code),
{
    let shown = match code {
        Some(c) => {
            let n = digits::signed_number(c as i64);
            text::cat3("Some(", n.as_str(), ")")
        },
        None => "None".to_owned(),
    };
    let head = text::cat3("证书安装被取消或失败（", explain_certutil_exit(code), "；certutil 退出码 ");
    text::cat3(head.as_str(), shown.as_str(), "）")
}

/// How a run of the command ended.
#[derive(Clone, Copy)]
pub struct Exit {
    pub success: bool,
    pub code: Option<i32>,
}

/// What comes next when a certificate is installed.
pub enum InstallStep {
    /// Give the files back their rights, and look whether the certificate can be read.
    ResetRights,
    /// Run the command once more.
    RunAgain,
    /// Look whether the certificate is listed.
    Recheck,
    /// It failed, for this reason.
    Failed(String),
}

/// What comes next after the first run: rights are reset where it failed and the certificate
/// cannot be read.
pub fn after_first_run(exit: Exit, readable: bool) -> (r: InstallStep)
    ensures
        r is Recheck <==> exit.success,
        r is ResetRights <==> !exit.success && !readable,
        !exit.success && readable ==> r is Failed && r->Failed_0@ == failure(exit.code),
{
    if exit.success {
        InstallStep::Recheck
    } else if !readable {
        InstallStep::ResetRights
    } else {
        InstallStep::Failed(install_failure(exit.code))
    }
}

/// What comes next after the rights were reset: another run where the certificate can be read now.
pub fn after_reset(first: Exit, readable: bool) -> (r: InstallStep)
    requires
        !first.success,
    ensures
        r is RunAgain <==> readable,
        !readable ==> r is Failed && r->Failed_0@ == failure(first.code),
{
    if readable {
        InstallStep::RunAgain
    } else {
        InstallStep::Failed(install_failure(first.code))
    }
}

/// What comes next after the second run. There is no third.
pub fn after_second_run(exit: Exit) -> (r: InstallStep)
    ensures
        r is Recheck <==> exit.success,
        !exit.success ==> r is Failed && r->Failed_0@ == failure(exit.code),
{
    if exit.success {
        InstallStep::Recheck
    } else {
        InstallStep::Failed(install_failure(exit.code))
    }
}

/// How installing ended, by what the system lists after a run that went well.
pub fn cert_install(after: CertStatus) -> (r: Result<CertStatus, String>)
    ensures
        r is Ok <==> after.installed,
        after.installed ==> r->Ok_0.installed,
        !after.installed ==> r->Err_0@
            == "证书安装命令已执行，但根证书存储中未找到 TraeDeviceProxyCA，请检查系统策略"@,
{
    if !after.installed {
        return Err("证书安装命令已执行，但根证书存储中未找到 TraeDeviceProxyCA，请检查系统策略".to_owned());
    }
    Ok(after)
}

/// What an exit code means: that it was called off, that access was denied, or else that it may be a
/// matter of rights; without a code the process broke off.
pub proof fn exit_codes_have_their_meaning(c: i32)
    ensures
        exit_meaning(Some(1223)) == "用户取消了 UAC 授权"@,
        c == 5 || c == -2147024891 ==> exit_meaning(Some(c))
            == "证书文件权限不足（拒绝访问），可尝试删除数据目录下 certs 文件夹后重试"@,
        c != 1223 && c != 5 && c != -2147024891 ==> exit_meaning(Some(c)) == "可能需要管理员权限或证书文件不可读"@,
        exit_meaning(None) == "进程异常退出"@,
        failure(Some(c)) == "证书安装被取消或失败（"@ + exit_meaning(Some(c)) + "；certutil 退出码 "@ + ("Some("@
            + digits::decimal(c as int) + ")"@) + "）"@,
        failure(None) == "证书安装被取消或失败（"@ + "进程异常退出"@ + "；certutil 退出码 "@ + "None"@ + "）"@,
{
}

/// The authority is installed exactly where a listing names it.
pub proof fn installed_authorities_are_listed(bytes: Seq<u8>)
    ensures
        is_listed(Some(bytes)) == text::has_text(text::bytes_shown(bytes), "TraeDeviceProxyCA"@),
        !is_listed(None),
{
}

} // verus!
