{% extends "base" %}
{% block content %}
<div class="flex items-center justify-center min-h-screen py-4 lg:py-10">
<div class="w-full max-w-2xl mx-3 lg:mx-4 bg-card rounded-xl border border-border shadow-md p-4 lg:p-6">
<div class="flex items-center gap-2 mb-4 border-b border-border pb-3">
<div class="avatar-initials bg-accent-100 text-accent-800 dark:bg-accent-900/30 dark:text-accent-400">
{{ avatar }}
</div>
<div>
<div class="text-sm font-semibold text-foreground">{{ username }}</div>
<div class="text-xs text-muted-fg">Shared Note · {{ created_at }}</div>
</div>
{% if visibility == 'public' %}
<span class="ml-auto inline-flex items-center px-1.5 py-0.5 rounded text-[10px] font-medium bg-green-50 text-green-700 dark:bg-green-900/20 dark:text-green-400 border border-green-100 dark:border-green-800">Public</span>
{% elif visibility == 'protected' %}
<span class="ml-auto inline-flex items-center px-1.5 py-0.5 rounded text-[10px] font-medium bg-amber-50 text-amber-700 dark:bg-amber-900/20 dark:text-amber-400 border border-amber-100 dark:border-amber-800">Protected</span>
{% endif %}
</div>
{% if title %}
<h1 class="text-xl font-bold mb-3 text-foreground">{{ title }}</h1>
{% endif %}
<div class="memo-content text-foreground text-[15px] leading-relaxed mb-4">
{{ content_html|safe }}
</div>
{% if tags and tags|length > 0 %}
<div class="flex flex-wrap gap-1.5 mt-4 border-t border-border pt-3">
{% for tag in tags %}
<span class="inline-flex items-center px-2 py-0.5 rounded text-xs font-medium bg-muted text-muted-fg border border-border">#{{ tag }}</span>
{% endfor %}
</div>
{% endif %}
</div>
</div>
{% endblock %}