use visor::instance::{Instance, InstanceConfig};
use visor::notify::{
    message_tpl, GroupRobot, Markdown, Message, MessageType, Notifier, NotifyError, Text,
    WechatNotifier,
};
use visor::records::{Config, ContainerRecord, Lifecycle, ResourceSnapshot};

fn victim() -> ContainerRecord {
    ContainerRecord {
        id: "0123456789abcdef0123".to_string(),
        names: vec!["/web".to_string()],
        status: "Up 2 weeks (healthy)".to_string(),
        image: "ones:latest".to_string(),
        ports: vec![],
    }
}

fn instance() -> Instance {
    Instance {
        owner: "li@ones.ai".to_string(),
        deploy_dir: "/data/ones/pkg/li".to_string(),
        config: InstanceConfig {
            base_url: "https://li.example".to_string(),
            volume: "li-data".to_string(),
        },
    }
}

fn config(serv_url: &str) -> Config {
    Config {
        notify_webhook: "https://example.invalid/hook".to_string(),
        cpu_limit: 8000,
        mem_limit: 9000,
        serv_url: serv_url.to_string(),
        department_id: 7,
        lifecycle: Lifecycle { container: 3, pkg: 5, release: 7, image_created: 9 },
    }
}

const REPORT: &str = "由于私有部署环境资源使用达到上限，以下容器已被强制停止:
> 访问地址: [https://li.example](https://li.example)
> 创建者: <font color=\"comment\">li@ones.ai</font>
> 运行时长: <font color=\"comment\">2 weeks</font>
> 容器ID: <font color=\"comment\">0123456789ab</font>
> 部署目录: <font color=\"comment\">/data/ones/pkg/li</font>
> 数据卷: <font color=\"comment>li-data</font>

当前资源使用情况:
> CPU: <font color=\"comment\">85%</font>
> 内存: <font color=\"comment\">7%</font>
> 磁盘: <font color=\"comment\">100%</font>

如需继续使用该实例，可自行重启容器:
> 重启命令: <font color=\"comment\">docker start 0123456789ab</font>";

const NOTICE: &str = "

<font color=\"warning\">注意: 实例如不再使用，将在 3 天后被删除！</font>";

#[test]
fn message_without_service_address() {
    let usage = ResourceSnapshot { cpu: 8599, mem: 700, disk: 10000, taken_at: 0 };
    let msg = message_tpl(&victim(), &instance(), &config(""), &usage);
    assert_eq!(msg, format!("{}{}", REPORT, NOTICE));
}

#[test]
fn message_with_service_address() {
    let usage = ResourceSnapshot { cpu: 8599, mem: 700, disk: 10000, taken_at: 0 };
    let msg = message_tpl(&victim(), &instance(), &config("http://serv:17456"), &usage);
    let link = "\n> 重启链接: [点击启动](http://serv:17456/start_container/0123456789ab)";
    assert_eq!(msg, format!("{}{}{}", REPORT, link, NOTICE));
}

#[test]
fn message_for_an_unknown_owner_and_odd_status() {
    let mut c = victim();
    c.id = "abc".to_string();
    c.status = "Created".to_string();
    let usage = ResourceSnapshot { cpu: 0, mem: 99, disk: 101, taken_at: 0 };
    let msg = message_tpl(&c, &Instance::default(), &config(""), &usage);
    assert!(msg.contains("> 访问地址: []()\n"));
    assert!(msg.contains("> 运行时长: <font color=\"comment\">Created</font>\n"));
    assert!(msg.contains("> 容器ID: <font color=\"comment\">abc</font>\n"));
    assert!(msg.contains("> CPU: <font color=\"comment\">0%</font>\n"));
    assert!(msg.contains("> 内存: <font color=\"comment\">0%</font>\n"));
    assert!(msg.contains("> 磁盘: <font color=\"comment\">1%</font>\n"));
    assert!(msg.ends_with(NOTICE));
    c.status = "Up ".to_string();
    let msg = message_tpl(&c, &Instance::default(), &config(""), &usage);
    assert!(msg.contains("> 运行时长: <font color=\"comment\">Up </font>\n"));
    c.status = String::new();
    let msg = message_tpl(&c, &Instance::default(), &config(""), &usage);
    assert!(msg.contains("> 运行时长: <font color=\"comment\"></font>\n"));
    c.status = "Exited (1) 5 fortnights ago".to_string();
    let msg = message_tpl(&c, &Instance::default(), &config(""), &usage);
    assert!(msg.contains("> 运行时长: <font color=\"comment\">5 fortnights</font>\n"));
}

#[test]
fn notifiers_need_a_webhook() {
    assert_eq!(Notifier::new(String::new()), Err(NotifyError::EmptyWebhook));
    assert_eq!(Notifier::new("h".to_string()), Ok(Notifier { webhook: "h".to_string() }));
    assert_eq!(GroupRobot::new(String::new()), Err(NotifyError::EmptyWebhook));
    assert_eq!(GroupRobot::new("h".to_string()), Ok(GroupRobot { webhook: "h".to_string() }));
    assert_eq!(WechatNotifier::new(""), Err(NotifyError::EmptyWebhook));
    assert_eq!(WechatNotifier::new("h"), Ok(WechatNotifier { webhook: "h".to_string() }));
}

#[test]
fn messages_carry_one_payload() {
    let m = Markdown { content: "hello".to_string() };
    let msg = Message::markdown(&m);
    assert_eq!(msg.msgtype, MessageType::Markdown);
    assert_eq!(msg.markdown, Some(&m));
    assert_eq!(msg.text, None);
    let t = Text { content: "hi".to_string(), mentioned_list: None, mentioned_mobile_list: None };
    let msg = Message::text(&t);
    assert_eq!(msg.msgtype, MessageType::Text);
    assert_eq!(msg.markdown, None);
    assert_eq!(msg.text, Some(&t));
}

#[test]
fn notification_is_a_markdown_and_a_mention() {
    let id = "LiLei".to_string();
    let (m, t) = WechatNotifier::payloads("stopped", Some(&id));
    assert_eq!(m, Markdown { content: "stopped".to_string() });
    assert_eq!(
        t,
        Text {
            content: String::new(),
            mentioned_list: Some(vec!["LiLei".to_string()]),
            mentioned_mobile_list: None,
        }
    );
    let (m, t) = WechatNotifier::payloads("stopped", None);
    assert_eq!(m.content, "stopped");
    assert_eq!(t.mentioned_list, None);
}

#[test]
fn robot_answers_are_read_by_their_code() {
    assert_eq!(GroupRobot::check_response(0, "ok".to_string()), Ok(()));
    assert_eq!(
        GroupRobot::check_response(93000, "invalid webhook".to_string()),
        Err(NotifyError::Rejected("invalid webhook".to_string()))
    );
    assert_eq!(
        GroupRobot::check_response(-1, "busy".to_string()),
        Err(NotifyError::Rejected("busy".to_string()))
    );
}
