//! What is told to the owner of a stopped container, and the payloads
//! that carry it to a group robot.

use vstd::prelude::*;
use vstd::string::*;
use crate::instance::Instance;
use crate::records::{Config, ContainerRecord, ResourceSnapshot};
use crate::status::{parse_status_time, status_pair};
use crate::text::{decimal_digits, decimal_string, truncate_text, truncated};

verus! {

/// Why a notifier could not be made or a message not delivered.
#[derive(Clone, Debug, PartialEq, Eq)]
pub enum NotifyError {
    /// The webhook address is empty.
    EmptyWebhook,
    /// The corporation id or the application secret is empty.
    EmptyCredentials,
    /// No access token is held.
    NoToken,
    /// The receiving side answered with an error code and this text.
    Rejected(String),
}

/// A sender of plain markdown messages to one webhook.
#[derive(Clone, Debug, PartialEq, Eq)]
pub struct Notifier {
    pub webhook: String,
}

impl Notifier {
    /// A notifier for `webhook`, which must not be empty.
    pub fn new(webhook: String) -> (r: Result<Notifier, NotifyError>)
        ensures
            webhook@.len() == 0 ==> r is Err && r->Err_0 is EmptyWebhook,
            webhook@.len() > 0 ==> r is Ok && r->Ok_0.webhook == webhook,
    {
        if webhook.as_str().is_empty() {
            Err(NotifyError::EmptyWebhook)
        } else {
            Ok(Notifier { webhook })
        }
    }
}

/// A text payload, with the users to mention.
#[derive(Clone, Debug, PartialEq, Eq)]
pub struct Text {
    pub content: String,
    pub mentioned_list: Option<Vec<String>>,
    pub mentioned_mobile_list: Option<Vec<String>>,
}

/// A markdown payload.
#[derive(Clone, Debug, PartialEq, Eq)]
pub struct Markdown {
    pub content: String,
}

/// The kind of payload that a message carries.
#[derive(Clone, Copy, Debug, PartialEq, Eq, Structural)]
pub enum MessageType {
    Markdown,
    Text,
}

/// A message for a group robot: one payload and its kind.
#[derive(Debug, PartialEq, Eq)]
pub struct Message<'a> {
    pub msgtype: MessageType,
    pub markdown: Option<&'a Markdown>,
    pub text: Option<&'a Text>,
}

impl<'a> Message<'a> {
    /// A message that carries the markdown payload `m`.
    pub fn markdown(m: &'a Markdown) -> (msg: Message<'a>)
        ensures
            msg.msgtype == MessageType::Markdown,
            msg.markdown == Some(m),
            msg.text is None,
    {
        Message { msgtype: MessageType::Markdown, markdown: Some(m), text: None }
    }

    /// A message that carries the text payload `t`.
    pub fn text(t: &'a Text) -> (msg: Message<'a>)
        ensures
            msg.msgtype == MessageType::Text,
            msg.markdown is None,
            msg.text == Some(t),
    {
        Message { msgtype: MessageType::Text, markdown: None, text: Some(t) }
    }
}

/// A group robot behind one webhook.
#[derive(Clone, Debug, PartialEq, Eq)]
pub struct GroupRobot {
    pub webhook: String,
}

impl GroupRobot {
    /// A robot for `webhook`, which must not be empty.
    pub fn new(webhook: String) -> (r: Result<GroupRobot, NotifyError>)
        ensures
            webhook@.len() == 0 ==> r is Err && r->Err_0 is EmptyWebhook,
            webhook@.len() > 0 ==> r is Ok && r->Ok_0.webhook == webhook,
    {
        if webhook.as_str().is_empty() {
            Err(NotifyError::EmptyWebhook)
        } else {
            Ok(GroupRobot { webhook })
        }
    }

    /// Reads the robot's answer to a message: code 0 is success, any
    /// other code is a rejection with the answer's text.
    pub fn check_response(errcode: i32, errmsg: String) -> (r: Result<(), NotifyError>)
        ensures
            errcode == 0 ==> r is Ok,
            errcode != 0 ==> r is Err && r->Err_0 == NotifyError::Rejected(errmsg),
    {
        if errcode == 0 {
            Ok(())
        } else {
            Err(NotifyError::Rejected(errmsg))
        }
    }
}

/// A sender that posts a markdown message and then mentions a user.
#[derive(Clone, Debug, PartialEq, Eq)]
pub struct WechatNotifier {
    pub webhook: String,
}

impl WechatNotifier {
    /// A notifier for `webhook`, which must not be empty.
    pub fn new(webhook: &str) -> (r: Result<WechatNotifier, NotifyError>)
        ensures
            webhook@.len() == 0 ==> r is Err && r->Err_0 is EmptyWebhook,
            webhook@.len() > 0 ==> r is Ok && r->Ok_0.webhook@ == webhook@,
    {
        if webhook.is_empty() {
            Err(NotifyError::EmptyWebhook)
        } else {
            Ok(WechatNotifier { webhook: webhook.to_owned() })
        }
    }

    /// The two payloads of one notification: the message as markdown,
    /// then an empty text that mentions `user_id` where there is one.
    pub fn payloads(msg: &str, user_id: Option<&String>) -> (r: (Markdown, Text))
        ensures
            r.0.content@ == msg@,
            r.1.content@.len() == 0,
            r.1.mentioned_mobile_list is None,
            match user_id {
                Some(id) => r.1.mentioned_list is Some && r.1.mentioned_list->0@ == seq![*id],
                None => r.1.mentioned_list is None,
            },
    {
        let mentioned_list = match user_id {
            Some(id) => {
                let mut list: Vec<String> = Vec::new();
                list.push(id.clone());
                Some(list)
            },
            None => None,
        };
        (
            Markdown { content: msg.to_owned() },
            Text { content: String::new(), mentioned_list, mentioned_mobile_list: None },
        )
    }
}

/// The running time as the message shows it: the amount and the unit
/// of the status line with a space between them, and the line as it is
/// where it writes none.
pub open spec fn running_time_text(status: Seq<char>) -> Seq<char> {
    match status_pair(status) {
        Ok(pair) => pair.0 + " "@ + pair.1,
        Err(_) => status,
    }
}

/// A share in whole percent, the rest cut off.
pub open spec fn whole_percent(share: u32) -> nat {
    share as nat / 100
}

/// The part of the message that names the stopped container, its owner
/// and the usage of the host, and tells how to start it again.
pub open spec fn report_text(
    id: Seq<char>,
    running_time: Seq<char>,
    inst: Instance,
    usage: ResourceSnapshot,
) -> Seq<char> {
    "由于私有部署环境资源使用达到上限，以下容器已被强制停止:\n> 访问地址: ["@
        + inst.config.base_url@ + "]("@ + inst.config.base_url@
        + ")\n> 创建者: <font color=\"comment\">"@ + inst.owner@
        + "</font>\n> 运行时长: <font color=\"comment\">"@ + running_time
        + "</font>\n> 容器ID: <font color=\"comment\">"@ + id
        + "</font>\n> 部署目录: <font color=\"comment\">"@ + inst.deploy_dir@
        + "</font>\n> 数据卷: <font color=\"comment>"@ + inst.config.volume@
        + "</font>\n\n当前资源使用情况:\n> CPU: <font color=\"comment\">"@ + decimal_digits(
        whole_percent(usage.cpu),
    ) + "%</font>\n> 内存: <font color=\"comment\">"@ + decimal_digits(whole_percent(usage.mem))
        + "%</font>\n> 磁盘: <font color=\"comment\">"@ + decimal_digits(whole_percent(usage.disk))
        + "%</font>\n\n如需继续使用该实例，可自行重启容器:\n> 重启命令: <font color=\"comment\">docker start "@
        + id + "</font>"@
}

/// The line with the link that starts the container again; nothing
/// where no service address is configured.
pub open spec fn restart_link_text(serv_url: Seq<char>, id: Seq<char>) -> Seq<char> {
    if serv_url.len() == 0 {
        Seq::empty()
    } else {
        "\n> 重启链接: [点击启动]("@ + serv_url + "/start_container/"@ + id + ")"@
    }
}

/// The closing warning that names the retention of stopped containers.
pub open spec fn retention_notice_text(days: u64) -> Seq<char> {
    "\n\n<font color=\"warning\">注意: 实例如不再使用，将在 "@ + decimal_digits(days as nat)
        + " 天后被删除！</font>"@
}

/// The whole message about a stopped container.
pub open spec fn message_text(
    container: ContainerRecord,
    inst: Instance,
    cfg: Config,
    usage: ResourceSnapshot,
) -> Seq<char> {
    let id = truncated(container.id@, 12);
    report_text(id, running_time_text(container.status@), inst, usage) + restart_link_text(
        cfg.serv_url@,
        id,
    ) + retention_notice_text(cfg.lifecycle.container)
}

fn running_time(status: &str) -> (s: String)
    ensures
        s@ == running_time_text(status@),
{
    match parse_status_time(status) {
        Ok(items) => {
            let mut s = items[0].clone();
            s.append(" ");
            s.append(items[1].as_str());
            s
        },
        Err(_) => status.to_owned(),
    }
}

fn restart_link(serv_url: &str, id: &str) -> (s: String)
    ensures
        s@ == restart_link_text(serv_url@, id@),
{
    if serv_url.is_empty() {
        String::new()
    } else {
        let mut s = String::from_str("\n> 重启链接: [点击启动](");
        s.append(serv_url);
        s.append("/start_container/");
        s.append(id);
        s.append(")");
        s
    }
}

fn retention_notice(days: u64) -> (s: String)
    ensures
        s@ == retention_notice_text(days),
{
    let mut s = String::from_str("\n\n<font color=\"warning\">注意: 实例如不再使用，将在 ");
    s.append(decimal_string(days).as_str());
    s.append(" 天后被删除！</font>");
    s
}

fn report(id: &str, running_time: &str, inst: &Instance, usage: &ResourceSnapshot) -> (s: String)
    ensures
        s@ == report_text(id@, running_time@, *inst, *usage),
{
    let mut s = String::from_str(
        "由于私有部署环境资源使用达到上限，以下容器已被强制停止:\n> 访问地址: [",
    );
    s.append(inst.config.base_url.as_str());
    s.append("](");
    s.append(inst.config.base_url.as_str());
    s.append(")\n> 创建者: <font color=\"comment\">");
    s.append(inst.owner.as_str());
    s.append("</font>\n> 运行时长: <font color=\"comment\">");
    s.append(running_time);
    s.append("</font>\n> 容器ID: <font color=\"comment\">");
    s.append(id);
    s.append("</font>\n> 部署目录: <font color=\"comment\">");
    s.append(inst.deploy_dir.as_str());
    s.append("</font>\n> 数据卷: <font color=\"comment>");
    s.append(inst.config.volume.as_str());
    s.append("</font>\n\n当前资源使用情况:\n> CPU: <font color=\"comment\">");
    s.append(decimal_string((usage.cpu / 100) as u64).as_str());
    s.append("%</font>\n> 内存: <font color=\"comment\">");
    s.append(decimal_string((usage.mem / 100) as u64).as_str());
    s.append("%</font>\n> 磁盘: <font color=\"comment\">");
    s.append(decimal_string((usage.disk / 100) as u64).as_str());
    s.append(
        "%</font>\n\n如需继续使用该实例，可自行重启容器:\n> 重启命令: <font color=\"comment\">docker start ",
    );
    s.append(id);
    s.append("</font>");
    s
}

/// Writes the message about a stopped container: where it was served,
/// who owns it, how long it ran, its id cut to 12 bytes, where it
/// is deployed, the usage of the host in whole percent, how to start it
/// again, and after how many days it will be removed.
pub fn message_tpl(
    container: &ContainerRecord,
    inst: &Instance,
    cfg: &Config,
    usage: &ResourceSnapshot,
) -> (msg: String)
    ensures
        msg@ == message_text(*container, *inst, *cfg, *usage),
{
    let id = truncate_text(container.id.as_str(), 12);
    let running = running_time(container.status.as_str());
    let mut msg = report(id, running.as_str(), inst, usage);
    msg.append(restart_link(cfg.serv_url.as_str(), id).as_str());
    msg.append(retention_notice(cfg.lifecycle.container).as_str());
    msg
}

} // verus!
